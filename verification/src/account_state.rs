//! Risk state of accounts, as the risk shards publish it and the order checks
//! read it.

use vstd::prelude::*;

verus! {

/// The published state of one account.
#[derive(Debug, Clone, Copy, PartialEq, Eq, Structural)]
pub struct AccountRiskState {
    /// Deposits plus realised profit and loss.
    pub balance: i64,
    /// Margin that the open positions need.
    pub used_margin: i64,
    /// The account may not send new orders, by decision of a risk shard.
    pub frozen: bool,
    /// The account may not trade at all.
    pub halted: bool,
    /// Net position.
    pub position: i64,
    pub open_order_count: u32,
}

impl Default for AccountRiskState {
    fn default() -> (r: AccountRiskState)
        ensures
            r == (AccountRiskState {
                balance: 0,
                used_margin: 0,
                frozen: false,
                halted: false,
                position: 0,
                open_order_count: 0,
            }),
    {
        AccountRiskState {
            balance: 0,
            used_margin: 0,
            frozen: false,
            halted: false,
            position: 0,
            open_order_count: 0,
        }
    }
}

impl AccountRiskState {
    /// The state as one consistent value.
    pub fn read(&self) -> (r: AccountRiskState)
        ensures
            r == *self,
    {
        *self
    }

    /// Publishes a new state.
    pub fn update(
        &mut self,
        balance: i64,
        used_margin: i64,
        frozen: bool,
        halted: bool,
        position: i64,
        open_order_count: u32,
    )
        ensures
            *final(self) == (AccountRiskState {
                balance,
                used_margin,
                frozen,
                halted,
                position,
                open_order_count,
            }),
    {
        *self =
        AccountRiskState { balance, used_margin, frozen, halted, position, open_order_count };
    }

    pub fn is_halted(&self) -> (b: bool)
        ensures
            b == self.halted,
    {
        self.halted
    }

    pub fn position(&self) -> (p: i64)
        ensures
            p == self.position,
    {
        self.position
    }

    pub fn open_order_count(&self) -> (n: u32)
        ensures
            n == self.open_order_count,
    {
        self.open_order_count
    }

    pub fn set_halted(&mut self, halted: bool)
        ensures
            *final(self) == (AccountRiskState { halted, ..*old(self) }),
    {
        self.halted = halted;
    }

    pub fn set_position(&mut self, position: i64)
        ensures
            *final(self) == (AccountRiskState { position, ..*old(self) }),
    {
        self.position = position;
    }
}

/// The states of the accounts `0..n`.
pub struct AccountRiskTable {
    states: Vec<AccountRiskState>,
}

impl AccountRiskTable {
    /// The states, by account.
    pub closed spec fn view(self) -> Seq<AccountRiskState> {
        self.states@
    }

    /// `n` accounts in their initial state.
    pub fn new(n: usize) -> (table: AccountRiskTable)
        ensures
            table@.len() == n,
            forall|i: int|
                0 <= i < n ==> #[trigger] table@[i] == (AccountRiskState {
                    balance: 0,
                    used_margin: 0,
                    frozen: false,
                    halted: false,
                    position: 0,
                    open_order_count: 0,
                }),
    {
        AccountRiskTable { states: initial_states(n) }
    }

    pub fn len(&self) -> (n: usize)
        ensures
            n == self@.len(),
    {
        self.states.len()
    }

    /// The state of an account.
    pub fn get(&self, account: u64) -> (r: &AccountRiskState)
        requires
            account < self@.len(),
        ensures
            *r == self@[account as int],
    {
        assert(self.states.len() <= usize::MAX);
        &self.states[account as usize]
    }

    /// The state of an account, for publishing a new one.
    pub fn get_mut(&mut self, account: u64) -> (r: &mut AccountRiskState)
        requires
            account < old(self)@.len(),
        ensures
            *r == old(self)@[account as int],
            final(self)@ == old(self)@.update(account as int, *final(r)),
    {
        assert(self.states.len() <= usize::MAX);
        &mut self.states[account as usize]
    }
}

/// The states of `n` new accounts.
pub fn initial_states(n: usize) -> (states: Vec<AccountRiskState>)
    ensures
        states@.len() == n,
        forall|i: int|
            0 <= i < n ==> #[trigger] states@[i] == (AccountRiskState {
                balance: 0,
                used_margin: 0,
                frozen: false,
                halted: false,
                position: 0,
                open_order_count: 0,
            }),
{
    let mut states: Vec<AccountRiskState> = Vec::new();
    let mut i: usize = 0;
    while i < n
        invariant
            i <= n,
            states@.len() == i,
            forall|j: int|
                0 <= j < i ==> #[trigger] states@[j] == (AccountRiskState {
                    balance: 0,
                    used_margin: 0,
                    frozen: false,
                    halted: false,
                    position: 0,
                    open_order_count: 0,
                }),
        decreases n - i,
    {
        states.push(AccountRiskState::default());
        i += 1;
    }
    states
}

} // verus!

//! A risk shard: the positions and the margin of a range of accounts.
//!
//! The shard is the only writer of the states of its accounts. After every
//! fill it recomputes the margin of the accounts involved, publishes it, and
//! asks for the liquidation of an account whose margin exceeds its balance.

use crate::account_state;
use crate::account_state::AccountRiskState;
use crate::core_types::commands::InboundCommand;
use crate::core_types::events::EngineEvent;
use crate::core_types::ids::{AccountId, Symbol};
use crate::core_types::price::Price;
use crate::core_types::qty::Qty;
use crate::core_types::side::Side;
use crate::ring_buffer::spmc::{SpmcConsumer, SpmcShared};
use crate::risk_engine::config::{RiskLimits, ShardConfig};
use crate::risk_engine::fixed;
use crate::risk_engine::laws;
use crate::risk_engine::position::Position;
use std::collections::HashMap;
use std::ops::Range;
use vstd::prelude::*;

verus! {

broadcast use vstd::std_specs::hash::group_hash_axioms;

/// Slots of the ring that the matching engines fan their events out on.
pub const FANOUT_CAP: usize = 16384;

/// Slots of the ring that liquidation commands go out on.
pub const CMD_CAP: usize = 1024;

/// Current market prices by the number of the symbol.
pub type MarkPrices = HashMap<u16, Price>;

/// The position of an account in a symbol.
#[derive(Debug, Clone, Copy, PartialEq, Eq, Structural)]
pub struct PositionEntry {
    pub account: AccountId,
    pub symbol: Symbol,
    pub position: Position,
}

/// The state of one risk shard.
pub struct RiskShard {
    /// The accounts that the shard owns.
    pub owned: Range<u64>,
    /// The positions, in the order in which they were opened.
    pub positions: Vec<PositionEntry>,
    /// The published state of each account, from the first owned one on.
    pub states: Vec<AccountRiskState>,
    pub config: ShardConfig,
}

/// A shard as a value.
#[verifier::ext_equal]
pub struct ShardModel {
    pub start: int,
    pub end: int,
    pub limits: RiskLimits,
    pub positions: Seq<PositionEntry>,
    pub states: Seq<AccountRiskState>,
}

/// One side of a trade.
#[derive(Debug, Clone, Copy)]
pub struct Leg {
    pub account: AccountId,
    pub symbol: Symbol,
    pub side: Side,
    pub price: Price,
    pub qty: Qty,
}

/// The place of a position, the length of the list if there is none.
pub open spec fn index_of(entries: Seq<PositionEntry>, account: AccountId, symbol: Symbol) -> int
    decreases entries.len(),
{
    if entries.len() == 0 || (entries[0].account == account && entries[0].symbol == symbol) {
        0
    } else {
        1 + index_of(entries.drop_first(), account, symbol)
    }
}

/// The position of an account in a symbol, flat if there is none.
pub open spec fn position_in(
    entries: Seq<PositionEntry>,
    account: AccountId,
    symbol: Symbol,
) -> Position {
    let i = index_of(entries, account, symbol);
    if i < entries.len() {
        entries[i].position
    } else {
        Position::flat()
    }
}

/// The list with the position set.
pub open spec fn with_position(
    entries: Seq<PositionEntry>,
    account: AccountId,
    symbol: Symbol,
    position: Position,
) -> Seq<PositionEntry> {
    let i = index_of(entries, account, symbol);
    let entry = PositionEntry { account, symbol, position };
    if i < entries.len() {
        entries.update(i, entry)
    } else {
        entries.push(entry)
    }
}

/// The margin that a position needs: its value at the market price, or at its
/// average entry price where no market price is known, times the maintenance
/// fraction.
pub open spec fn margin_of(
    entry: PositionEntry,
    marks: Map<u16, Price>,
    limits: RiskLimits,
) -> i64 {
    let mark = if marks.contains_key(entry.symbol.0) {
        marks[entry.symbol.0]
    } else {
        Price(entry.position.avg_entry_price)
    };
    if entry.position.net_qty == 0 {
        0
    } else {
        fixed::clamped(
            fixed::div_to_zero(
                entry.position.spec_notional(mark) * limits.maintenance_margin_fraction,
                fixed::FRACTION_SCALE as int,
            ),
        )
    }
}

/// The margin of all positions of an account together.
pub open spec fn margin_sum(
    entries: Seq<PositionEntry>,
    account: AccountId,
    marks: Map<u16, Price>,
    limits: RiskLimits,
) -> int
    decreases entries.len(),
{
    if entries.len() == 0 {
        0
    } else {
        margin_sum(entries.drop_last(), account, marks, limits) + (if entries.last().account
            == account {
            margin_of(entries.last(), marks, limits) as int
        } else {
            0
        })
    }
}

/// The realised profit and loss of all positions of an account together.
pub open spec fn realised_sum(entries: Seq<PositionEntry>, account: AccountId) -> int
    decreases entries.len(),
{
    if entries.len() == 0 {
        0
    } else {
        realised_sum(entries.drop_last(), account) + (if entries.last().account == account {
            entries.last().position.realised_pnl as int
        } else {
            0
        })
    }
}

impl ShardModel {
    pub open spec fn owns(self, account: AccountId) -> bool {
        self.start <= account.0 < self.end
    }

    pub open spec fn state_of(self, account: AccountId) -> AccountRiskState {
        self.states[account.0 - self.start]
    }

    /// The fill of the leg can be booked.
    pub open spec fn can_take(self, leg: Leg) -> bool {
        self.owns(leg.account) ==> position_in(
            self.positions,
            leg.account,
            leg.symbol,
        ).can_take(leg.side, leg.qty)
    }

    /// The positions after the leg.
    pub open spec fn positions_after(self, leg: Leg) -> Seq<PositionEntry> {
        with_position(
            self.positions,
            leg.account,
            leg.symbol,
            position_in(self.positions, leg.account, leg.symbol).after_fill(
                leg.side,
                leg.price,
                leg.qty,
            ),
        )
    }

    /// The balance of the account after the leg: what the fill realised is
    /// added to it.
    pub open spec fn balance_after(self, leg: Leg) -> i64 {
        let before = position_in(self.positions, leg.account, leg.symbol);
        let after = before.after_fill(leg.side, leg.price, leg.qty);
        fixed::clamped(
            self.state_of(leg.account).balance + after.realised_pnl - before.realised_pnl,
        )
    }

    /// The margin that the account needs after the leg.
    pub open spec fn margin_after(self, leg: Leg, marks: Map<u16, Price>) -> i64 {
        fixed::clamped(margin_sum(self.positions_after(leg), leg.account, marks, self.limits))
    }

    /// After the leg the account needs more margin than it has.
    pub open spec fn breaches(self, leg: Leg, marks: Map<u16, Price>) -> bool {
        self.owns(leg.account) && self.margin_after(leg, marks) > self.balance_after(leg)
    }

    /// The shard after one side of a trade. An account that breaches is
    /// frozen.
    pub open spec fn book_leg(self, leg: Leg, marks: Map<u16, Price>) -> ShardModel {
        if !self.owns(leg.account) {
            self
        } else {
            let state = self.state_of(leg.account);
            ShardModel {
                positions: self.positions_after(leg),
                states: self.states.update(
                    leg.account.0 - self.start,
                    AccountRiskState {
                        balance: self.balance_after(leg),
                        used_margin: self.margin_after(leg, marks),
                        frozen: state.frozen || self.breaches(leg, marks),
                        ..state
                    },
                ),
                ..self
            }
        }
    }

    /// The shard can book the event.
    pub open spec fn accepts(self, event: EngineEvent, marks: Map<u16, Price>) -> bool {
        event is Trade ==> {
            &&& self.can_take(maker_leg(event))
            &&& self.book_leg(maker_leg(event), marks).can_take(taker_leg(event))
        }
    }

    /// The shard after an event.
    pub open spec fn after(self, event: EngineEvent, marks: Map<u16, Price>) -> ShardModel {
        if event is Trade {
            self.book_leg(maker_leg(event), marks).book_leg(taker_leg(event), marks)
        } else {
            self
        }
    }

    /// The command that an event calls for: the liquidation of an account
    /// that breaches, the taker's if both do.
    pub open spec fn command(self, event: EngineEvent, marks: Map<u16, Price>) -> Option<
        InboundCommand,
    > {
        if event is Trade {
            let maker = maker_leg(event);
            let taker = taker_leg(event);
            if self.book_leg(maker, marks).breaches(taker, marks) {
                Some(InboundCommand::Liquidate { symbol: taker.symbol, account: taker.account })
            } else if self.breaches(maker, marks) {
                Some(InboundCommand::Liquidate { symbol: maker.symbol, account: maker.account })
            } else {
                None
            }
        } else {
            None
        }
    }
}

/// The resting side of a trade.
pub open spec fn maker_leg(event: EngineEvent) -> Leg {
    Leg {
        account: event->maker_acct,
        symbol: event->Trade_symbol,
        side: event->maker_side,
        price: event->Trade_price,
        qty: event->Trade_qty,
    }
}

/// The incoming side of a trade.
pub open spec fn taker_leg(event: EngineEvent) -> Leg {
    Leg {
        account: event->taker_acct,
        symbol: event->Trade_symbol,
        side: event->maker_side.spec_opposite(),
        price: event->Trade_price,
        qty: event->Trade_qty,
    }
}

/// What the first side of a trade leaves the second one with: its position in
/// the symbol as it was, or, on the account of the first side, as that left it.
proof fn lemma_second_leg(m: ShardModel, maker: Leg, taker: Leg, marks: Map<u16, Price>)
    requires
        maker.symbol == taker.symbol,
    ensures
        position_in(m.book_leg(maker, marks).positions, taker.account, taker.symbol) == ({
            let before = position_in(m.positions, taker.account, taker.symbol);
            if maker.account == taker.account && m.owns(maker.account) {
                before.after_fill(maker.side, maker.price, maker.qty)
            } else {
                before
            }
        }),
{
    if m.owns(maker.account) {
        let p = position_in(m.positions, maker.account, maker.symbol);
        let q = p.after_fill(maker.side, maker.price, maker.qty);
        if maker.account == taker.account {
            lemma_index_found(m.positions, maker.account, maker.symbol);
            let i = index_of(m.positions, maker.account, maker.symbol);
            let later = with_position(m.positions, maker.account, maker.symbol, q);
            assert forall|j: int| 0 <= j < i implies !((#[trigger] later[j]).account
                == maker.account && later[j].symbol == maker.symbol) by {
                assert(later[j] == m.positions[j]);
            }
            lemma_index_is(later, maker.account, maker.symbol, i);
            assert(position_in(later, maker.account, maker.symbol) == q);
        } else {
            laws::lemma_position_kept(
                m.positions,
                maker.account,
                maker.symbol,
                q,
                taker.account,
                taker.symbol,
            );
        }
    }
}

/// What a look-up finds.
pub proof fn lemma_index_found(entries: Seq<PositionEntry>, account: AccountId, symbol: Symbol)
    ensures
        ({
            let i = index_of(entries, account, symbol);
            &&& 0 <= i <= entries.len()
            &&& i < entries.len() ==> entries[i].account == account && entries[i].symbol == symbol
            &&& forall|j: int|
                0 <= j < i ==> !((#[trigger] entries[j]).account == account && entries[j].symbol
                    == symbol)
        }),
    decreases entries.len(),
{
    if entries.len() > 0 && !(entries[0].account == account && entries[0].symbol == symbol) {
        let rest = entries.drop_first();
        lemma_index_found(rest, account, symbol);
        assert forall|j: int| 0 <= j < index_of(entries, account, symbol) implies !((
        #[trigger] entries[j]).account == account && entries[j].symbol == symbol) by {
            if j > 0 {
                assert(entries[j] == rest[j - 1]);
            }
        }
    }
}

/// The first match is what a look-up finds.
pub proof fn lemma_index_is(
    entries: Seq<PositionEntry>,
    account: AccountId,
    symbol: Symbol,
    p: int,
)
    requires
        0 <= p <= entries.len(),
        p < entries.len() ==> entries[p].account == account && entries[p].symbol == symbol,
        forall|j: int|
            0 <= j < p ==> !((#[trigger] entries[j]).account == account && entries[j].symbol
                == symbol),
    ensures
        index_of(entries, account, symbol) == p,
    decreases entries.len(),
{
    if p > 0 {
        let rest = entries.drop_first();
        assert(!(entries[0].account == account && entries[0].symbol == symbol));
        assert forall|j: int| 0 <= j < p - 1 implies !((#[trigger] rest[j]).account == account
            && rest[j].symbol == symbol) by {
            assert(rest[j] == entries[j + 1]);
        }
        lemma_index_is(rest, account, symbol, p - 1);
    }
}

/// Whether a position with this net quantity can take a fill.
fn fits(net: i64, side: Side, qty: Qty) -> (b: bool)
    ensures
        forall|p: Position| p.net_qty == net ==> #[trigger] p.can_take(side, qty) == b,
{
    let later: i128 = match side {
        Side::Buy => net as i128 + qty.0 as i128,
        Side::Sell => net as i128 - qty.0 as i128,
    };
    qty.0 > 0 && net > i64::MIN && later > i64::MIN as i128 && later <= i64::MAX as i128
}

impl RiskShard {
    pub open spec fn view(self) -> ShardModel {
        ShardModel {
            start: self.owned.start as int,
            end: self.owned.end as int,
            limits: self.config.limits,
            positions: self.positions@,
            states: self.states@,
        }
    }

    /// Each owned account has its state.
    pub open spec fn wf(self) -> bool {
        &&& self.owned.start <= self.owned.end
        &&& self.states@.len() == self.owned.end - self.owned.start
    }

    /// A shard without positions.
    pub fn new(owned: Range<u64>, config: ShardConfig) -> (shard: RiskShard)
        requires
            owned.start <= owned.end,
            owned.end - owned.start <= usize::MAX,
        ensures
            shard.wf(),
            shard.owned == owned,
            shard.config == config,
            shard.positions@.len() == 0,
            forall|i: int|
                0 <= i < shard.states@.len() ==> #[trigger] shard.states@[i] == (AccountRiskState {
                    balance: 0,
                    used_margin: 0,
                    frozen: false,
                    halted: false,
                    position: 0,
                    open_order_count: 0,
                }),
    {
        let n: usize = (owned.end - owned.start) as usize;
        let states = account_state::initial_states(n);
        RiskShard { owned, positions: Vec::new(), states, config }
    }

    /// Whether the shard owns the account.
    fn owns(&self, account: AccountId) -> (b: bool)
        ensures
            b == self@.owns(account),
    {
        self.owned.start <= account.0 && account.0 < self.owned.end
    }

    /// The place of the account's state.
    fn state_idx(&self, account: AccountId) -> (i: usize)
        requires
            self.wf(),
            self@.owns(account),
        ensures
            i == account.0 - self.owned.start,
            i < self.states@.len(),
    {
        assert(self.states.len() <= usize::MAX);
        (account.0 - self.owned.start) as usize
    }

    /// The position of an account in a symbol, if it ever had one.
    pub fn position(&self, account: AccountId, symbol: Symbol) -> (r: Option<&Position>)
        ensures
            match r {
                Some(p) => {
                    let i = index_of(self.positions@, account, symbol);
                    i < self.positions@.len() && *p == self.positions@[i].position
                },
                None => index_of(self.positions@, account, symbol) == self.positions@.len(),
            },
    {
        let i: usize = self.find(account, symbol);
        if i < self.positions.len() {
            Some(&self.positions[i].position)
        } else {
            None
        }
    }

    fn find(&self, account: AccountId, symbol: Symbol) -> (i: usize)
        ensures
            i == index_of(self.positions@, account, symbol),
            i <= self.positions@.len(),
            i < self.positions@.len() ==> self.positions@[i as int].account == account
                && self.positions@[i as int].symbol == symbol,
    {
        let mut i: usize = 0;
        while i < self.positions.len()
            invariant
                i <= self.positions@.len(),
                forall|j: int|
                    0 <= j < i ==> !((#[trigger] self.positions@[j]).account == account
                        && self.positions@[j].symbol == symbol),
            decreases self.positions@.len() - i,
        {
            let e = &self.positions[i];
            if e.account == account && e.symbol == symbol {
                proof {
                    lemma_index_is(self.positions@, account, symbol, i as int);
                }
                return i;
            }
            i += 1;
        }
        proof {
            lemma_index_is(self.positions@, account, symbol, i as int);
        }
        i
    }

    /// Whether an event can be processed: its fill has a quantity, and no
    /// position of an owned account grows beyond what can be counted. Market
    /// prices play no part in that.
    pub fn can_process(&self, event: &EngineEvent) -> (b: bool)
        requires
            self.wf(),
        ensures
            forall|marks: Map<u16, Price>| #[trigger] self@.accepts(*event, marks) == b,
    {
        match event {
            EngineEvent::Trade { maker_acct, taker_acct, symbol, qty, maker_side, .. } => {
                let ghost maker = maker_leg(*event);
                let ghost taker = taker_leg(*event);
                proof {
                    assert forall|marks: Map<u16, Price>| true implies #[trigger] self@.accepts(
                        *event,
                        marks,
                    ) == (self@.can_take(maker) && (self@.owns(taker.account) ==> ({
                        let before = position_in(self@.positions, taker.account, taker.symbol);
                        let at = if maker.account == taker.account && self@.owns(maker.account) {
                            before.after_fill(maker.side, maker.price, maker.qty)
                        } else {
                            before
                        };
                        at.can_take(taker.side, taker.qty)
                    }))) by {
                        lemma_second_leg(self@, maker, taker, marks);
                    }
                }
                if self.owns(*maker_acct) {
                    let net: i64 = self.net_of(*maker_acct, *symbol);
                    if !fits(net, *maker_side, *qty) {
                        return false;
                    }
                }
                if self.owns(*taker_acct) {
                    let net: i64 = self.net_of(*taker_acct, *symbol);
                    let at: i64 = if *maker_acct == *taker_acct {
                        (match maker_side {
                            Side::Buy => net as i128 + qty.0 as i128,
                            Side::Sell => net as i128 - qty.0 as i128,
                        }) as i64
                    } else {
                        net
                    };
                    if !fits(at, maker_side.opposite(), *qty) {
                        return false;
                    }
                }
                true
            },
            _ => true,
        }
    }

    /// The net quantity of an account in a symbol.
    fn net_of(&self, account: AccountId, symbol: Symbol) -> (net: i64)
        ensures
            net == position_in(self.positions@, account, symbol).net_qty,
    {
        match self.position(account, symbol) {
            Some(p) => p.net_qty,
            None => 0,
        }
    }

    /// Takes the next event off the ring and processes it. The result is
    /// `None` if there is none, otherwise the command that follows from it, if
    /// any. That command has to get through: a missed liquidation is worse
    /// than a late one.
    pub fn poll(
        &mut self,
        inbound: &mut SpmcConsumer<EngineEvent, FANOUT_CAP>,
        ring: &mut SpmcShared<EngineEvent, FANOUT_CAP>,
        mark_prices: &MarkPrices,
    ) -> (r: Option<Option<InboundCommand>>)
        requires
            old(self).wf(),
            old(ring).wf(),
            old(inbound).drains(*old(ring)),
            ({
                let n = old(ring).read(old(inbound).index());
                n < old(ring).published().len() ==> old(self)@.accepts(
                    old(ring).published()[n as int],
                    mark_prices@,
                )
            }),
        ensures
            final(self).wf(),
            final(ring).wf(),
            final(inbound).drains(*final(ring)),
            final(inbound).index() == old(inbound).index(),
            final(ring).published() == old(ring).published(),
            ({
                let n = old(ring).read(old(inbound).index());
                match r {
                    Some(cmd) => {
                        let event = old(ring).published()[n as int];
                        &&& n < old(ring).published().len()
                        &&& final(ring).read(old(inbound).index()) == n + 1
                        &&& final(self)@ == old(self)@.after(event, mark_prices@)
                        &&& final(self).config == old(self).config
                        &&& cmd == old(self)@.command(event, mark_prices@)
                    },
                    None => {
                        &&& n == old(ring).published().len()
                        &&& final(ring).read(old(inbound).index()) == n
                        &&& *final(self) == *old(self)
                    },
                }
            }),
    {
        match inbound.try_pop(ring) {
            Some(event) => Some(self.process_event(event, mark_prices)),
            None => None,
        }
    }

    /// Processes one event. The result is the liquidation of an account that
    /// needs more margin than it has.
    pub fn process_event(&mut self, event: EngineEvent, mark_prices: &MarkPrices) -> (cmd: Option<
        InboundCommand,
    >)
        requires
            old(self).wf(),
            old(self)@.accepts(event, mark_prices@),
        ensures
            final(self).wf(),
            final(self)@ == old(self)@.after(event, mark_prices@),
            final(self).config == old(self).config,
            cmd == old(self)@.command(event, mark_prices@),
    {
        match event {
            EngineEvent::Trade {
                maker_acct,
                taker_acct,
                symbol,
                price,
                qty,
                maker_side,
                ..
            } => {
                let maker = Leg { account: maker_acct, symbol, side: maker_side, price, qty };
                let taker = Leg {
                    account: taker_acct,
                    symbol,
                    side: maker_side.opposite(),
                    price,
                    qty,
                };
                assert(maker == maker_leg(event) && taker == taker_leg(event));
                let mut liquidate: Option<InboundCommand> = None;
                if self.book(maker, mark_prices) {
                    liquidate = Some(InboundCommand::Liquidate { symbol, account: maker_acct });
                }
                if self.book(taker, mark_prices) {
                    liquidate = Some(InboundCommand::Liquidate { symbol, account: taker_acct });
                }
                liquidate
            },
            _ => None,
        }
    }

    /// Books one side of a trade. The result says whether the account now
    /// needs more margin than it has.
    fn book(&mut self, leg: Leg, mark_prices: &MarkPrices) -> (breach: bool)
        requires
            old(self).wf(),
            old(self)@.can_take(leg),
        ensures
            final(self).wf(),
            final(self)@ == old(self)@.book_leg(leg, mark_prices@),
            final(self).config == old(self).config,
            breach == old(self)@.breaches(leg, mark_prices@),
    {
        let ghost pre = self@;
        if !self.owns(leg.account) {
            return false;
        }
        let at: usize = self.find(leg.account, leg.symbol);
        let before = if at < self.positions.len() {
            self.positions[at].position
        } else {
            Position::default()
        };
        let mut position = before;
        position.apply_fill(leg.side, leg.price, leg.qty);
        let entry = PositionEntry { account: leg.account, symbol: leg.symbol, position };
        if at < self.positions.len() {
            self.positions[at] = entry;
        } else {
            self.positions.push(entry);
        }
        assert(self.positions@ =~= pre.positions_after(leg));
        let idx: usize = self.state_idx(leg.account);
        let s = self.states[idx].read();
        let balance: i64 = fixed::clamp(
            s.balance as i128 + position.realised_pnl as i128 - before.realised_pnl as i128,
        );
        let used_margin: i64 = self.used_margin(leg.account, mark_prices);
        let breach = used_margin > balance;
        let state = AccountRiskState {
            balance,
            used_margin,
            frozen: s.frozen || breach,
            halted: s.halted,
            position: s.position,
            open_order_count: s.open_order_count,
        };
        self.states[idx] = state;
        assert(self@ =~= pre.book_leg(leg, mark_prices@));
        breach
    }

    /// The margin of all positions of an account.
    fn used_margin(&self, account: AccountId, mark_prices: &MarkPrices) -> (r: i64)
        ensures
            r == fixed::clamped(
                margin_sum(self.positions@, account, mark_prices@, self.config.limits),
            ),
    {
        let ghost limits = self.config.limits;
        let mut total: i128 = 0;
        let mut i: usize = 0;
        assert(self.positions@.take(0) =~= Seq::<PositionEntry>::empty());
        while i < self.positions.len()
            invariant
                i <= self.positions@.len(),
                limits == self.config.limits,
                total == margin_sum(
                    self.positions@.take(i as int),
                    account,
                    mark_prices@,
                    limits,
                ),
                -0x8000_0000_0000_0000 * i <= total <= 0x8000_0000_0000_0000 * i,
            decreases self.positions@.len() - i,
        {
            let e = self.positions[i];
            proof {
                let part = self.positions@.take(i + 1);
                assert(part.drop_last() =~= self.positions@.take(i as int));
                assert(part.last() == e);
            }
            if e.account == account {
                let margin: i64 = self.entry_margin(&e, mark_prices);
                total = total + margin as i128;
            }
            i += 1;
        }
        assert(self.positions@.take(i as int) =~= self.positions@);
        fixed::clamp(total)
    }

    /// The margin that one position needs.
    fn entry_margin(&self, e: &PositionEntry, mark_prices: &MarkPrices) -> (r: i64)
        ensures
            r == margin_of(*e, mark_prices@, self.config.limits),
    {
        if e.position.net_qty == 0 {
            return 0;
        }
        let mark = match mark_prices.get(&e.symbol.0) {
            Some(p) => *p,
            None => Price(e.position.avg_entry_price),
        };
        let notional: i64 = e.position.notional(mark);
        proof {
            fixed::lemma_product_bound(
                notional as int,
                self.config.limits.maintenance_margin_fraction as int,
                0x8000_0000_0000_0000,
                0x8000_0000_0000_0000,
            );
        }
        fixed::clamp(
            fixed::divide(
                notional as i128 * self.config.limits.maintenance_margin_fraction as i128,
                fixed::FRACTION_SCALE,
            ),
        )
    }
}

} // verus!

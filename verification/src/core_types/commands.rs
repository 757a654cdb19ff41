//! Commands that enter the engine.

use crate::core_types::ids::{AccountId, ClientOrderId, InstrumentId, OrderId, Symbol};
use crate::core_types::price::Price;
use crate::core_types::qty::Qty;
use crate::core_types::side::Side;
use vstd::prelude::*;

verus! {

/// How long a new order stays alive.
#[derive(Debug, Clone, Copy, PartialEq, Eq, Hash, Structural)]
pub enum TimeInForce {
    /// Good till cancelled: rests on the book until filled or cancelled.
    Gtc,
    /// Immediate or cancel: fills what it can at once, cancels the rest.
    Ioc,
    /// Fill or kill: fills completely at once or not at all.
    Fok,
}

/// The kind of an order. The limit price of a `Limit` order travels beside
/// this tag in every command.
#[derive(Debug, Clone, Copy, PartialEq, Eq, Hash, Structural)]
pub enum OrderType {
    Limit,
    Market,
}

/// A new order as the gateway receives it. The engine assigns the order id
/// when the order is sequenced.
#[derive(Debug, Clone, Copy, PartialEq, Eq, Hash, Structural)]
pub struct NewOrder {
    pub account_id: AccountId,
    pub instrument_id: InstrumentId,
    pub client_order_id: ClientOrderId,
    pub side: Side,
    pub price: Price,
    pub order_type: OrderType,
    pub qty: Qty,
    pub time_in_force: TimeInForce,
}

/// A request to cancel a resting order.
#[derive(Debug, Clone, Copy, PartialEq, Eq, Hash, Structural)]
pub struct CancelOrder {
    pub account_id: AccountId,
    pub instrument_id: InstrumentId,
    pub order_id: OrderId,
}

/// A request to change the quantity, and possibly the price, of a resting
/// order. It may lose its time priority.
#[derive(Debug, Clone, Copy, PartialEq, Eq, Hash, Structural)]
pub struct ModifyOrder {
    pub account_id: AccountId,
    pub instrument_id: InstrumentId,
    pub order_id: OrderId,
    pub new_qty: Qty,
    pub new_price: Option<Price>,
}

/// The unit of work that travels from the gateway to the sequencer.
#[derive(Debug, Clone, Copy, PartialEq, Eq, Hash, Structural)]
pub enum Command {
    New(NewOrder),
    Cancel(CancelOrder),
    Modify(ModifyOrder),
    /// Stop trading in an instrument.
    Halt { instrument_id: InstrumentId },
    /// Start trading in an instrument again.
    Resume { instrument_id: InstrumentId },
}

impl Command {
    /// The instrument the command is about.
    pub fn instrument_id(&self) -> (r: Option<InstrumentId>)
        ensures
            r == Some(
                match *self {
                    Command::New(n) => n.instrument_id,
                    Command::Cancel(c) => c.instrument_id,
                    Command::Modify(m) => m.instrument_id,
                    Command::Halt { instrument_id } => instrument_id,
                    Command::Resume { instrument_id } => instrument_id,
                },
            ),
    {
        match self {
            Command::New(n) => Some(n.instrument_id),
            Command::Cancel(c) => Some(c.instrument_id),
            Command::Modify(m) => Some(m.instrument_id),
            Command::Halt { instrument_id } => Some(*instrument_id),
            Command::Resume { instrument_id } => Some(*instrument_id),
        }
    }

    /// The account the command comes from, `None` for administrative ones.
    pub fn account_id(&self) -> (r: Option<AccountId>)
        ensures
            r == match *self {
                Command::New(n) => Some(n.account_id),
                Command::Cancel(c) => Some(c.account_id),
                Command::Modify(m) => Some(m.account_id),
                Command::Halt { .. } => None,
                Command::Resume { .. } => None,
            },
    {
        match self {
            Command::New(n) => Some(n.account_id),
            Command::Cancel(c) => Some(c.account_id),
            Command::Modify(m) => Some(m.account_id),
            Command::Halt { .. } => None,
            Command::Resume { .. } => None,
        }
    }
}

/// A command in the form that the sequencer routes to the matching engines.
#[derive(Debug, Clone, Copy, PartialEq, Eq, Hash, Structural)]
pub enum InboundCommand {
    NewOrder {
        account: AccountId,
        client_order_id: ClientOrderId,
        symbol: Symbol,
        side: Side,
        price: Price,
        qty: Qty,
        order_type: OrderType,
        time_in_force: TimeInForce,
    },
    Cancel { account: AccountId, order_id: OrderId },
    /// Close out an account on a symbol. Emitted by the risk engine.
    Liquidate { symbol: Symbol, account: AccountId },
    /// Stop an account from sending new orders. Emitted by the risk engine.
    FreezeAccount { account: AccountId },
}

/// A command with its place in the total order. The sequencer never gives
/// the same `seq` twice.
#[derive(Debug, Clone, Copy, PartialEq, Eq, Hash, Structural)]
pub struct SequencedCommand {
    pub seq: u64,
    pub ts_ns: u64,
    pub cmd: InboundCommand,
}

} // verus!

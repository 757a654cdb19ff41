//! Events that leave the engine.

use crate::core_types::ids::{
    AccountId, ClientOrderId, InstrumentId, OrderId, SequenceNo, Symbol,
};
use crate::core_types::price::Price;
use crate::core_types::qty::Qty;
use crate::core_types::side::Side;
use vstd::prelude::*;

verus! {

/// Why an order left the book without being filled.
#[derive(Debug, Clone, Copy, PartialEq, Eq, Hash, Structural)]
pub enum CancelReason {
    /// The owner asked for it.
    UserRequested,
    /// The time in force ran out.
    TimeInForceExpired,
    /// The risk engine removed it.
    RiskLimitBreach,
    /// The instrument was halted.
    InstrumentHalted,
}

/// Why an order was turned down.
#[derive(Debug, Clone, Copy, PartialEq, Eq, Hash, Structural)]
pub enum RejectReason {
    RiskLimitBreach,
    InstrumentHalted,
    InvalidPrice,
    InvalidQuantity,
    InvalidQty,
    UnknownInstrument,
    UnknownOrder,
    PriceOutOfRange,
    IocNoMatch,
    ArenaFull,
    OrderNotFound,
    WrongAccount,
    /// A fill-or-kill order that could not be filled completely.
    FokNotFullyFillable,
    /// An order type that the book does not match.
    UnsupportedOrderType,
}

/// One trade between an incoming and a resting order.
#[derive(Debug, Clone, Copy, PartialEq, Eq, Hash, Structural)]
pub struct Fill {
    pub instrument_id: InstrumentId,
    /// The order that started the match.
    pub aggressor_order_id: OrderId,
    pub aggressor_account_id: AccountId,
    pub aggressor_side: Side,
    /// The resting order it was matched with.
    pub resting_order_id: OrderId,
    pub resting_account_id: AccountId,
    /// The price of the resting order.
    pub price: Price,
    pub qty: Qty,
    /// What is left of the resting order.
    pub resting_remaining_qty: Qty,
    /// What is left of the incoming order.
    pub aggressor_remaining_qty: Qty,
}

/// The events that clients, the log and the risk engine see. Each carries the
/// sequence number of the command that caused it.
#[derive(Debug, Clone, Copy, PartialEq, Eq, Hash, Structural)]
pub enum Event {
    /// A new order was accepted and rests on the book.
    Accepted {
        seq: SequenceNo,
        instrument_id: InstrumentId,
        order_id: OrderId,
        account_id: AccountId,
        client_order_id: ClientOrderId,
        side: Side,
        price: Price,
        qty: Qty,
    },
    /// A trade.
    Filled { seq: SequenceNo, fill: Fill },
    /// An order left the book.
    Canceled {
        seq: SequenceNo,
        instrument_id: InstrumentId,
        order_id: OrderId,
        account_id: AccountId,
        reason: CancelReason,
        remaining_qty: Qty,
    },
    /// An order never reached the book.
    Rejected {
        seq: SequenceNo,
        account_id: AccountId,
        client_order_id: ClientOrderId,
        reason: RejectReason,
    },
    /// A resting order was changed.
    Modified {
        seq: SequenceNo,
        instrument_id: InstrumentId,
        order_id: OrderId,
        account_id: AccountId,
        new_qty: Qty,
        new_price: Option<Price>,
    },
    /// Trading in an instrument stopped.
    InstrumentHalted { seq: SequenceNo, instrument_id: InstrumentId },
    /// Trading in an instrument started again.
    InstrumentResumed { seq: SequenceNo, instrument_id: InstrumentId },
}

impl Event {
    /// The sequence number the event carries, as a model function.
    pub open spec fn spec_seq(self) -> SequenceNo {
        match self {
            Event::Accepted { seq, .. } => seq,
            Event::Filled { seq, .. } => seq,
            Event::Canceled { seq, .. } => seq,
            Event::Rejected { seq, .. } => seq,
            Event::Modified { seq, .. } => seq,
            Event::InstrumentHalted { seq, .. } => seq,
            Event::InstrumentResumed { seq, .. } => seq,
        }
    }

    /// The sequence number of the command that caused the event.
    pub fn seq(&self) -> (r: SequenceNo)
        ensures
            r == self.spec_seq(),
    {
        match self {
            Event::Accepted { seq, .. } => *seq,
            Event::Filled { seq, .. } => *seq,
            Event::Canceled { seq, .. } => *seq,
            Event::Rejected { seq, .. } => *seq,
            Event::Modified { seq, .. } => *seq,
            Event::InstrumentHalted { seq, .. } => *seq,
            Event::InstrumentResumed { seq, .. } => *seq,
        }
    }
}

/// Events between the order book, the risk shards and the second engine.
#[derive(Debug, Clone, Copy, PartialEq, Eq, Hash, Structural)]
pub enum EngineEvent {
    Trade {
        seq: u64,
        ts_ns: u64,
        symbol: Symbol,
        price: Price,
        qty: Qty,
        maker_order: OrderId,
        taker_order: OrderId,
        maker_order_id: OrderId,
        taker_order_id: OrderId,
        maker_acct: AccountId,
        taker_acct: AccountId,
        maker_side: Side,
        maker_remaining_qty: Qty,
        taker_remaining_qty: Qty,
    },
    Accepted {
        seq: u64,
        order_id: OrderId,
        ts_ns: u64,
        symbol: Symbol,
        account_id: AccountId,
        client_order_id: ClientOrderId,
        side: Side,
        price: Price,
        qty: Qty,
    },
    Rejected {
        seq: u64,
        order_id: OrderId,
        account_id: AccountId,
        client_order_id: ClientOrderId,
        reason: RejectReason,
    },
    Cancelled { seq: u64, order_id: OrderId },
    BookTop { seq: u64, symbol: Symbol, bid: Option<Price>, ask: Option<Price> },
    /// The order has an id and was taken in.
    OrderAcknowledged { order_id: OrderId, account_id: AccountId, seq: u64 },
    OrderCancelled { order_id: OrderId, account_id: AccountId, seq: u64, symbol: Symbol },
    OrderRejected {
        order_id: OrderId,
        account_id: AccountId,
        reason: RejectReason,
        seq: u64,
        symbol: Symbol,
    },
    SnapshotMarker { seq: u64 },
}

/// An event carries the number that it was made with.
pub proof fn law_event_carries_its_number(ev: Event, n: SequenceNo)
    ensures
        ev.spec_seq() == n <==> match ev {
            Event::Accepted { seq, .. } => seq == n,
            Event::Filled { seq, .. } => seq == n,
            Event::Canceled { seq, .. } => seq == n,
            Event::Rejected { seq, .. } => seq == n,
            Event::Modified { seq, .. } => seq == n,
            Event::InstrumentHalted { seq, .. } => seq == n,
            Event::InstrumentResumed { seq, .. } => seq == n,
        },
{
}

} // verus!

//! From the events of the book to the events that the world sees.

use crate::core_types::events::{CancelReason, EngineEvent, Event, Fill};
use crate::core_types::ids;
use crate::core_types::ids::{InstrumentId, SequenceNo};
use crate::core_types::qty::Qty;
use vstd::prelude::*;

verus! {

/// The sequence number of an outward event.
pub open spec fn seq_no(seq: u64) -> SequenceNo {
    SequenceNo::of(ids::spec_new_or_first(seq))
}

/// The outward event of an event of the book, `None` for one that stays
/// inside.
pub open spec fn mapped(ev: EngineEvent) -> Option<Event> {
    match ev {
        EngineEvent::Trade {
            seq,
            symbol,
            price,
            qty,
            maker_order,
            taker_order,
            maker_acct,
            taker_acct,
            maker_side,
            maker_remaining_qty,
            taker_remaining_qty,
            ..
        } => Some(
            Event::Filled {
                seq: seq_no(seq),
                fill: Fill {
                    instrument_id: InstrumentId(symbol.0 as u64),
                    aggressor_order_id: taker_order,
                    aggressor_account_id: taker_acct,
                    aggressor_side: maker_side.spec_opposite(),
                    resting_order_id: maker_order,
                    resting_account_id: maker_acct,
                    price,
                    qty,
                    resting_remaining_qty: maker_remaining_qty,
                    aggressor_remaining_qty: taker_remaining_qty,
                },
            },
        ),
        EngineEvent::Accepted {
            seq,
            order_id,
            symbol,
            account_id,
            client_order_id,
            side,
            price,
            qty,
            ..
        } => Some(
            Event::Accepted {
                seq: seq_no(seq),
                instrument_id: InstrumentId(symbol.0 as u64),
                order_id,
                account_id,
                client_order_id,
                side,
                price,
                qty,
            },
        ),
        EngineEvent::Rejected { seq, account_id, client_order_id, reason, .. } => Some(
            Event::Rejected { seq: seq_no(seq), account_id, client_order_id, reason },
        ),
        EngineEvent::OrderCancelled { order_id, account_id, seq, symbol } => Some(
            Event::Canceled {
                seq: seq_no(seq),
                instrument_id: InstrumentId(symbol.0 as u64),
                order_id,
                account_id,
                reason: CancelReason::UserRequested,
                remaining_qty: Qty(0),
            },
        ),
        _ => None,
    }
}

/// The outward events of a list of events, in the same order.
pub open spec fn outward(events: Seq<EngineEvent>) -> Seq<Event>
    decreases events.len(),
{
    if events.len() == 0 {
        Seq::empty()
    } else {
        match mapped(events.last()) {
            Some(e) => outward(events.drop_last()).push(e),
            None => outward(events.drop_last()),
        }
    }
}

/// Maps one event.
pub fn map_engine_event(ev: EngineEvent) -> (r: Option<Event>)
    ensures
        r == mapped(ev),
{
    match ev {
        EngineEvent::Trade {
            seq,
            symbol,
            price,
            qty,
            maker_order,
            taker_order,
            maker_acct,
            taker_acct,
            maker_side,
            maker_remaining_qty,
            taker_remaining_qty,
            ..
        } => {
            let fill = Fill {
                instrument_id: InstrumentId(symbol.0 as u64),
                aggressor_order_id: taker_order,
                aggressor_account_id: taker_acct,
                aggressor_side: maker_side.opposite(),
                resting_order_id: maker_order,
                resting_account_id: maker_acct,
                price,
                qty,
                resting_remaining_qty: maker_remaining_qty,
                aggressor_remaining_qty: taker_remaining_qty,
            };
            Some(Event::Filled { seq: SequenceNo::new_or_first(seq), fill })
        },
        EngineEvent::Accepted {
            seq,
            order_id,
            symbol,
            account_id,
            client_order_id,
            side,
            price,
            qty,
            ..
        } => {
            Some(
                Event::Accepted {
                    seq: SequenceNo::new_or_first(seq),
                    instrument_id: InstrumentId(symbol.0 as u64),
                    order_id,
                    account_id,
                    client_order_id,
                    side,
                    price,
                    qty,
                },
            )
        },
        EngineEvent::Rejected { seq, account_id, client_order_id, reason, .. } => {
            Some(
                Event::Rejected {
                    seq: SequenceNo::new_or_first(seq),
                    account_id,
                    client_order_id,
                    reason,
                },
            )
        },
        EngineEvent::OrderCancelled { order_id, account_id, seq, symbol } => {
            Some(
                Event::Canceled {
                    seq: SequenceNo::new_or_first(seq),
                    instrument_id: InstrumentId(symbol.0 as u64),
                    order_id,
                    account_id,
                    reason: CancelReason::UserRequested,
                    remaining_qty: Qty::from_raw(0),
                },
            )
        },
        _ => None,
    }
}

/// Maps a list of events.
pub fn map_engine_events(events: &Vec<EngineEvent>) -> (out: Vec<Event>)
    ensures
        out@ == outward(events@),
{
    let mut out: Vec<Event> = Vec::new();
    let mut i: usize = 0;
    assert(events@.take(0) =~= Seq::<EngineEvent>::empty());
    while i < events.len()
        invariant
            i <= events@.len(),
            out@ == outward(events@.take(i as int)),
        decreases events@.len() - i,
    {
        proof {
            let part = events@.take(i + 1);
            assert(part.drop_last() =~= events@.take(i as int));
            assert(part.last() == events@[i as int]);
        }
        if let Some(e) = map_engine_event(events[i]) {
            out.push(e);
        }
        i += 1;
    }
    assert(events@.take(i as int) =~= events@);
    out
}

} // verus!

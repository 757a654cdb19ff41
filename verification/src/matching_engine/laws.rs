//! What holds of the matching engine as a whole.

use crate::account_state::AccountRiskTable;
use crate::core_types::commands::SequencedCommand;
use crate::core_types::events::{CancelReason, EngineEvent, Event, RejectReason};
use crate::core_types::ids;
use crate::core_types::ids::{InstrumentId, SequenceNo};
use crate::core_types::qty::Qty;
use crate::matching_engine::engine;
use crate::matching_engine::engine::MatchingEngine;
use crate::matching_engine::mapper;
use crate::matching_engine::metrics::EngineMetrics;
use crate::matching_engine::risk_check;
use crate::matching_engine::risk_check::RiskRejectReason;
use crate::order_book::book::accounts;
use crate::order_book::laws;
use crate::order_book::model;
use vstd::prelude::*;

verus! {

/// The quantity of all fills among the events.
pub open spec fn filled(events: Seq<Event>) -> nat
    decreases events.len(),
{
    if events.len() == 0 {
        0
    } else {
        filled(events.drop_last()) + (match events.last() {
            Event::Filled { fill, .. } => fill.qty.0 as nat,
            _ => 0,
        })
    }
}

/// Number of trades among the events of the book.
pub open spec fn trades(events: Seq<EngineEvent>) -> nat
    decreases events.len(),
{
    if events.len() == 0 {
        0
    } else {
        trades(events.drop_last()) + (if events.last() is Trade {
            1nat
        } else {
            0
        })
    }
}

/// The world sees every trade of the book, once and with its quantity.
pub proof fn law_every_trade_is_reported(events: Seq<EngineEvent>)
    ensures
        filled(mapper::outward(events)) == laws::traded(events),
        engine::fills(mapper::outward(events)) == trades(events),
    decreases events.len(),
{
    if events.len() > 0 {
        let front = events.drop_last();
        law_every_trade_is_reported(front);
        laws::lemma_traded_push(front, events.last());
        assert(events =~= front.push(events.last()));
        if let Some(e) = mapper::mapped(events.last()) {
            let out = mapper::outward(front).push(e);
            assert(out.drop_last() =~= mapper::outward(front));
        }
    }
}

/// An order that passes the risk check is reported as filled with what the
/// book holds for it: the smaller of its quantity and of what other accounts
/// offer at prices that its limit accepts, or nothing if the book refuses it.
pub proof fn law_reported_fill_is_what_the_order_trades(
    before: MatchingEngine,
    cmd: SequencedCommand,
    states: AccountRiskTable,
    later: MatchingEngine,
    events: Seq<Event>,
)
    requires
        before.carried_out(cmd, states, later, events),
        cmd.cmd is NewOrder,
    ensures
        ({
            let o = model::incoming(cmd);
            let m = before.book@;
            let offered = model::fillable(
                m.queue(o.side.spec_opposite()),
                o.side,
                o.price,
                o.account,
            );
            filled(events) == if before.verdict(cmd, states) is Err || m.refusal(o) is Some {
                0
            } else if offered < o.qty.0 {
                offered
            } else {
                o.qty.0 as nat
            }
        }),
{
    let m = before.book@;
    let o = model::incoming(cmd);
    match before.verdict(cmd, states) {
        Err(reason) => {
            let one = seq![MatchingEngine::rejection(cmd, reason)];
            assert(one.drop_last() =~= Seq::<Event>::empty());
            assert(filled(one.drop_last()) == 0);
        },
        Ok(_) => {
            let capacity = choose|capacity: nat|
                capacity >= m.reserved && {
                    let out = #[trigger] m.step(cmd, capacity);
                    &&& later.book@ == out.book
                    &&& events == mapper::outward(out.events)
                };
            let out = m.step(cmd, capacity);
            law_every_trade_is_reported(out.events);
            if m.refusal(o) is None {
                laws::law_order_trades_what_it_can(m, o, capacity);
            } else {
                assert(out.events.drop_first() =~= Seq::<EngineEvent>::empty());
                assert(laws::traded(out.events.drop_first()) == 0);
            }
        },
    }
}

/// Liquidating an account takes exactly its orders off the book: none of it is
/// left, the orders of the others stay, and the world sees one forced
/// cancellation for each order that is gone.
pub proof fn law_liquidation_clears_the_account(
    before: MatchingEngine,
    cmd: SequencedCommand,
    states: AccountRiskTable,
    later: MatchingEngine,
    events: Seq<Event>,
)
    requires
        before.carried_out(cmd, states, later, events),
        cmd.cmd is Liquidate,
    ensures
        ({
            let symbol = cmd.cmd->Liquidate_symbol;
            let account = cmd.cmd->Liquidate_account;
            let m = before.book@;
            let ids = accounts::ids_of(m.bids, account) + accounts::ids_of(m.asks, account);
            &&& later.book@ == accounts::without_account(m, account)
            &&& accounts::ids_of(later.book@.bids, account).len() == 0
            &&& accounts::ids_of(later.book@.asks, account).len() == 0
            &&& events.len() == ids.len()
            &&& forall|i: int|
                0 <= i < ids.len() ==> #[trigger] events[i] == (Event::Canceled {
                    seq: mapper::seq_no(cmd.seq),
                    instrument_id: InstrumentId(symbol.0 as u64),
                    order_id: ids[i],
                    account_id: account,
                    reason: CancelReason::RiskLimitBreach,
                    remaining_qty: Qty(0),
                })
        }),
{
    let account = cmd.cmd->Liquidate_account;
    accounts::law_only_the_account_is_gone(before.book@.bids, account);
    accounts::law_only_the_account_is_gone(before.book@.asks, account);
}

/// The risk check of an order depends on the state of its own account only:
/// what happens to other accounts does not change it.
pub proof fn law_risk_states_are_isolated(
    e: MatchingEngine,
    cmd: SequencedCommand,
    states: AccountRiskTable,
    others: AccountRiskTable,
)
    requires
        cmd.cmd is NewOrder ==> {
            let account = cmd.cmd->NewOrder_account.0 as int;
            account < states@.len() && account < others@.len() && states@[account]
                == others@[account]
        },
    ensures
        e.verdict(cmd, states) == e.verdict(cmd, others),
{
}

/// The number of a command in the events: its own, and one for zero.
pub open spec fn carries(ev: Event, seq: u64) -> bool {
    ev.spec_seq().spec_get() == if seq == 0 {
        1
    } else {
        seq
    }
}

/// A trade is shown as a fill of the incoming order against the resting one,
/// on the side opposite to that of the resting order. That an order was
/// accepted, refused or cancelled is shown with what the book says of it. All
/// else stays inside.
pub proof fn law_what_the_world_sees(ev: EngineEvent)
    ensures
        match (ev, mapper::mapped(ev)) {
            (
                EngineEvent::Trade {
                    seq,
                    symbol,
                    price,
                    qty,
                    maker_order,
                    taker_order,
                    maker_acct,
                    taker_acct,
                    maker_side,
                    maker_remaining_qty,
                    taker_remaining_qty,
                    ..
                },
                Some(out),
            ) => {
                &&& carries(out, seq)
                &&& out is Filled
                &&& out->fill.instrument_id.0 == symbol.0
                &&& out->fill.price == price
                &&& out->fill.qty == qty
                &&& out->fill.aggressor_order_id == taker_order
                &&& out->fill.aggressor_account_id == taker_acct
                &&& out->fill.aggressor_side != maker_side
                &&& out->fill.aggressor_remaining_qty == taker_remaining_qty
                &&& out->fill.resting_order_id == maker_order
                &&& out->fill.resting_account_id == maker_acct
                &&& out->fill.resting_remaining_qty == maker_remaining_qty
            },
            (
                EngineEvent::Accepted {
                    seq,
                    order_id,
                    symbol,
                    account_id,
                    client_order_id,
                    side,
                    price,
                    qty,
                    ..
                },
                Some(out),
            ) => {
                &&& carries(out, seq)
                &&& out is Accepted
                &&& out->Accepted_instrument_id.0 == symbol.0
                &&& out->Accepted_order_id == order_id
                &&& out->Accepted_account_id == account_id
                &&& out->Accepted_client_order_id == client_order_id
                &&& out->Accepted_side == side
                &&& out->Accepted_price == price
                &&& out->Accepted_qty == qty
            },
            (
                EngineEvent::Rejected { seq, account_id, client_order_id, reason, .. },
                Some(out),
            ) => {
                &&& carries(out, seq)
                &&& out is Rejected
                &&& out->Rejected_account_id == account_id
                &&& out->Rejected_client_order_id == client_order_id
                &&& out->Rejected_reason == reason
            },
            (EngineEvent::OrderCancelled { order_id, account_id, seq, symbol }, Some(out)) => {
                &&& carries(out, seq)
                &&& out is Canceled
                &&& out->Canceled_instrument_id.0 == symbol.0
                &&& out->Canceled_order_id == order_id
                &&& out->Canceled_account_id == account_id
                &&& out->Canceled_reason == CancelReason::UserRequested
                &&& out->remaining_qty.0 == 0
            },
            (EngineEvent::Cancelled { .. }, None) => true,
            (EngineEvent::BookTop { .. }, None) => true,
            (EngineEvent::OrderAcknowledged { .. }, None) => true,
            (EngineEvent::OrderRejected { .. }, None) => true,
            (EngineEvent::SnapshotMarker { .. }, None) => true,
            _ => false,
        },
{
    lemma_seq_no(0);
    match ev {
        EngineEvent::Trade { seq, .. } => lemma_seq_no(seq),
        EngineEvent::Accepted { seq, .. } => lemma_seq_no(seq),
        EngineEvent::Rejected { seq, .. } => lemma_seq_no(seq),
        EngineEvent::OrderCancelled { seq, .. } => lemma_seq_no(seq),
        _ => {},
    }
}

proof fn lemma_seq_no(seq: u64)
    ensures
        mapper::seq_no(seq).spec_get() == if seq == 0 {
            1
        } else {
            seq
        },
{
    SequenceNo::law_sequence_no_is_its_value(mapper::seq_no(seq), ids::spec_new_or_first(seq));
}

/// Events are shown in their order: the parts of a list can be shown one
/// after the other, and a single event is shown as it is mapped.
pub proof fn law_events_stay_in_order(a: Seq<EngineEvent>, b: Seq<EngineEvent>)
    ensures
        mapper::outward(a + b) == mapper::outward(a) + mapper::outward(b),
        a.len() == 0 ==> mapper::outward(a).len() == 0,
        a.len() == 1 ==> match mapper::mapped(a[0]) {
            Some(ev) => mapper::outward(a) == seq![ev],
            None => mapper::outward(a).len() == 0,
        },
    decreases b.len(),
{
    reveal_with_fuel(mapper::outward, 2);
    if b.len() == 0 {
        assert(a + b =~= a);
        assert(mapper::outward(a) + mapper::outward(b) =~= mapper::outward(a));
    } else {
        law_events_stay_in_order(a, b.drop_last());
        assert((a + b).drop_last() =~= a + b.drop_last());
        assert(mapper::outward(a + b) =~= mapper::outward(a) + mapper::outward(b));
    }
    if a.len() == 1 {
        if let Some(ev) = mapper::mapped(a[0]) {
            assert(mapper::outward(a) =~= seq![ev]);
        }
    }
}

/// Each fill among the events counts as one, and nothing else counts.
pub proof fn law_fills_are_counted(a: Seq<Event>, b: Seq<Event>)
    ensures
        engine::fills(a + b) == engine::fills(a) + engine::fills(b),
        a.len() == 0 ==> engine::fills(a) == 0,
        a.len() == 1 ==> engine::fills(a) == if a[0] is Filled {
            1int
        } else {
            0
        },
    decreases b.len(),
{
    reveal_with_fuel(engine::fills, 2);
    if b.len() == 0 {
        assert(a + b =~= a);
    } else {
        law_fills_are_counted(a, b.drop_last());
        assert((a + b).drop_last() =~= a + b.drop_last());
    }
}

/// The risk check looks at the order as the command has it.
pub proof fn law_order_is_checked_as_it_is(cmd: SequencedCommand)
    requires
        cmd.cmd is NewOrder,
    ensures
        ({
            let o = engine::checked_order(cmd.cmd);
            &&& o.account_id == cmd.cmd->NewOrder_account
            &&& o.instrument_id.0 == cmd.cmd->NewOrder_symbol.0
            &&& o.client_order_id == cmd.cmd->client_order_id
            &&& o.side == cmd.cmd->side
            &&& o.price == cmd.cmd->price
            &&& o.qty == cmd.cmd->qty
            &&& o.order_type == cmd.cmd->order_type
            &&& o.time_in_force == cmd.cmd->time_in_force
        }),
{
}

/// An order that fails the risk check leaves the book as it is. Its client,
/// and nobody else, is told so: a quantity that is too large is an invalid
/// quantity, a price too far off is out of range, and every other reason is a
/// breach of a limit. The order counts as rejected.
pub proof fn law_failed_check_is_answered(
    before: MatchingEngine,
    cmd: SequencedCommand,
    states: AccountRiskTable,
    later: MatchingEngine,
    events: Seq<Event>,
)
    requires
        before.carried_out(cmd, states, later, events),
        before.verdict(cmd, states) is Err,
    ensures
        cmd.cmd is NewOrder,
        later.book == before.book,
        later.config == before.config,
        later.running == before.running,
        later.reference_price == before.reference_price,
        later.metrics.orders_processed == (before.metrics.orders_processed + 1)
            % 0x1_0000_0000_0000_0000,
        later.metrics.risk_rejects == (before.metrics.risk_rejects + 1) % 0x1_0000_0000_0000_0000,
        later.metrics.fills_generated == before.metrics.fills_generated,
        events.len() == 1,
        carries(events[0], cmd.seq),
        events[0] is Rejected,
        events[0]->Rejected_account_id == cmd.cmd->NewOrder_account,
        events[0]->Rejected_client_order_id == cmd.cmd->client_order_id,
        events[0]->Rejected_reason == match before.verdict(cmd, states)->Err_0 {
            RiskRejectReason::MaxOrderQtyExceeded => RejectReason::InvalidQuantity,
            RiskRejectReason::PriceOutOfBand => RejectReason::PriceOutOfRange,
            _ => RejectReason::RiskLimitBreach,
        },
{
    lemma_seq_no(cmd.seq);
}

/// A command that passes is carried out by the book: what the book does and
/// says is all that happens. Only a new order is counted, with its fills.
pub proof fn law_command_reaches_the_book(
    before: MatchingEngine,
    cmd: SequencedCommand,
    states: AccountRiskTable,
    later: MatchingEngine,
    events: Seq<Event>,
)
    requires
        before.carried_out(cmd, states, later, events),
        before.verdict(cmd, states) is Ok,
    ensures
        later.config == before.config,
        later.running == before.running,
        later.reference_price == before.reference_price,
        !(cmd.cmd is Liquidate) ==> exists|capacity: nat|
            capacity >= before.book@.reserved && later.book@ == (#[trigger] before.book@.step(
                cmd,
                capacity,
            )).book && events == mapper::outward(before.book@.step(cmd, capacity).events),
        !(cmd.cmd is NewOrder) ==> later.metrics == before.metrics,
        cmd.cmd is NewOrder ==> {
            &&& later.metrics.orders_processed == (before.metrics.orders_processed + 1)
                % 0x1_0000_0000_0000_0000
            &&& later.metrics.risk_rejects == before.metrics.risk_rejects
            &&& later.metrics.fills_generated == (before.metrics.fills_generated + engine::fills(
                events,
            ) as u64) % 0x1_0000_0000_0000_0000
        },
{
}

/// Commands other than new orders are not held up by the risk check.
pub proof fn law_only_new_orders_are_checked(
    e: MatchingEngine,
    cmd: SequencedCommand,
    states: AccountRiskTable,
)
    ensures
        !(cmd.cmd is NewOrder) ==> e.verdict(cmd, states) is Ok,
        cmd.cmd is NewOrder ==> e.verdict(cmd, states) == risk_check::verdict(
            engine::checked_order(cmd.cmd),
            e.config.limits,
            states@[cmd.cmd->NewOrder_account.0 as int],
            e.reference_price,
        ),
        engine::RING_CAP == 1024,
        engine::MAX_PUBLISH_RETRIES == 64,
{
}

/// An event that is taken changes nothing in the engine, and one that is lost
/// counts as dropped and changes nothing else. A turn without a command counts
/// as idle and changes nothing else. The counters wrap around.
pub proof fn law_losses_and_idle_turns_are_counted(e: MatchingEngine)
    ensures
        e.after_offer(true) == e,
        ({
            let lost = e.after_offer(false);
            &&& lost.metrics.outbound_drops == (e.metrics.outbound_drops + 1)
                % 0x1_0000_0000_0000_0000
            &&& lost.metrics == (EngineMetrics {
                outbound_drops: lost.metrics.outbound_drops,
                ..e.metrics
            })
            &&& lost == (MatchingEngine { metrics: lost.metrics, ..e })
        }),
        ({
            let idle = e.after_idle_turn();
            &&& idle.metrics.idle_spins == (e.metrics.idle_spins + 1) % 0x1_0000_0000_0000_0000
            &&& idle.metrics == (EngineMetrics {
                idle_spins: idle.metrics.idle_spins,
                ..e.metrics
            })
            &&& idle == (MatchingEngine { metrics: idle.metrics, ..e })
        }),
{
}

} // verus!

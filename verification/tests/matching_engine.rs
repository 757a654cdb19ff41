//! The matching engine around the book.

use match_risk_engine::account_state::AccountRiskTable;
use match_risk_engine::core_types::commands::{
    InboundCommand, OrderType, SequencedCommand, TimeInForce,
};
use match_risk_engine::core_types::events::{CancelReason, Event, RejectReason};
use match_risk_engine::core_types::ids::{
    AccountId, ClientOrderId, InstrumentId, OrderId, SequenceNo, Symbol,
};
use match_risk_engine::core_types::price::Price;
use match_risk_engine::core_types::qty::Qty;
use match_risk_engine::core_types::side::Side;
use match_risk_engine::matching_engine::affinity::CpuSet;
use match_risk_engine::matching_engine::engine::{
    publish_step, EngineConfig, MatchingEngine, PublishStep, MAX_PUBLISH_RETRIES, RING_CAP,
};
use match_risk_engine::matching_engine::risk_check::Tier0Limits;
use match_risk_engine::order_book::book::{BookConfig, OrderBook};
use match_risk_engine::ring_buffer::spsc::spsc_queue;

fn mk_engine() -> (MatchingEngine, AccountRiskTable) {
    let book_cfg = BookConfig {
        symbol: Symbol(1),
        tick_floor: Price::zero(),
        num_ticks: 1024,
        arena_capacity: 4096,
    };
    let engine = MatchingEngine::new(
        EngineConfig {
            limits: Tier0Limits::default(),
            pin_core: None,
        },
        OrderBook::new(book_cfg),
    );
    (engine, AccountRiskTable::new(16))
}

fn order(seq: u64, account: u64, coid: u64, side: Side) -> SequencedCommand {
    SequencedCommand {
        seq,
        ts_ns: 0,
        cmd: InboundCommand::NewOrder {
            account: AccountId(account),
            client_order_id: ClientOrderId::new(coid),
            symbol: Symbol(1),
            side,
            price: Price::from_raw(100),
            qty: Qty::from_raw(10),
            order_type: OrderType::Limit,
            time_in_force: TimeInForce::Gtc,
        },
    }
}

#[test]
fn accepts_and_books_resting_order() {
    let (mut engine, states) = mk_engine();

    engine.handle_command(order(1, 1, 0, Side::Buy), &states);

    let snap = engine.metrics().snapshot();
    assert_eq!(snap.orders_processed, 1);
    assert_eq!(snap.risk_rejects, 0);
}

#[test]
fn matches_crossing_orders() {
    let (mut engine, states) = mk_engine();

    engine.handle_command(order(1, 1, 0, Side::Sell), &states);
    engine.handle_command(order(2, 2, 1, Side::Buy), &states);

    let snap = engine.metrics().snapshot();
    assert_eq!(snap.orders_processed, 2);
    assert!(snap.fills_generated >= 1);
}

/// Halting account 1 must reject account 1's orders and must NOT reject
/// account 2's orders on the same engine.
#[test]
fn risk_state_is_isolated_per_account() {
    let (mut engine, mut states) = mk_engine();

    states.get_mut(1).set_halted(true);

    engine.handle_command(order(1, 1, 0, Side::Buy), &states);
    engine.handle_command(order(2, 2, 1, Side::Buy), &states);

    let snap = engine.metrics().snapshot();
    assert_eq!(
        snap.risk_rejects, 1,
        "only account 1's order should be rejected"
    );
    assert_eq!(snap.orders_processed, 2);
}

#[test]
fn fill_is_reported_with_both_orders() {
    let (mut engine, states) = mk_engine();
    engine.handle_command(order(1, 1, 0, Side::Sell), &states);
    let events = engine.handle_command(order(2, 2, 1, Side::Buy), &states);
    let fills: Vec<_> = events
        .iter()
        .filter_map(|e| match e {
            Event::Filled { fill, .. } => Some(*fill),
            _ => None,
        })
        .collect();
    assert_eq!(fills.len(), 1);
    assert_eq!(fills[0].aggressor_order_id, OrderId(2));
    assert_eq!(fills[0].resting_order_id, OrderId(1));
    assert_eq!(fills[0].aggressor_account_id, AccountId(2));
    assert_eq!(fills[0].resting_account_id, AccountId(1));
    assert_eq!(fills[0].price, Price(100));
    assert_eq!(fills[0].qty, Qty(10));
}

#[test]
fn halted_account_is_told_why_and_the_book_stays() {
    let (mut engine, mut states) = mk_engine();
    states.get_mut(1).set_halted(true);
    let events = engine.handle_command(order(7, 1, 3, Side::Buy), &states);
    assert_eq!(events.len(), 1);
    match events[0] {
        Event::Rejected {
            seq,
            account_id,
            client_order_id,
            reason,
        } => {
            assert_eq!(seq, SequenceNo::new(7).unwrap());
            assert_eq!(account_id, AccountId(1));
            assert_eq!(client_order_id, ClientOrderId(3));
            assert_eq!(reason, RejectReason::RiskLimitBreach);
        }
        _ => panic!("expected a rejection"),
    }
    assert_eq!(engine.book.open_order_count(), 0);
}

#[test]
fn cancel_reaches_the_book_without_a_risk_check() {
    let (mut engine, mut states) = mk_engine();
    engine.handle_command(order(1, 1, 0, Side::Buy), &states);
    states.get_mut(1).set_halted(true);
    engine.handle_command(
        SequencedCommand {
            seq: 2,
            ts_ns: 0,
            cmd: InboundCommand::Cancel {
                account: AccountId(1),
                order_id: OrderId(1),
            },
        },
        &states,
    );
    assert_eq!(engine.book.open_order_count(), 0);
    assert_eq!(engine.metrics().snapshot().orders_processed, 1);
}

#[test]
fn poll_takes_commands_in_order_and_counts_idle_turns() {
    let (mut engine, states) = mk_engine();
    let (mut tx, mut rx, mut ring) = spsc_queue::<SequencedCommand, RING_CAP>();
    assert!(engine.poll(&mut rx, &mut ring, &states).is_none());
    assert_eq!(engine.metrics().idle_spins, 1);

    tx.try_push(&mut ring, order(1, 1, 0, Side::Sell)).unwrap();
    tx.try_push(&mut ring, order(2, 2, 1, Side::Buy)).unwrap();
    assert!(engine.poll(&mut rx, &mut ring, &states).is_some());
    assert_eq!(engine.book.open_order_count(), 1);
    assert!(engine.poll(&mut rx, &mut ring, &states).is_some());
    assert_eq!(engine.book.open_order_count(), 0);
    assert!(engine.poll(&mut rx, &mut ring, &states).is_none());
}

#[test]
fn publish_drops_only_on_a_full_ring() {
    let (mut engine, _states) = mk_engine();
    let (mut tx, mut rx, mut ring) = spsc_queue::<Event, RING_CAP>();
    let ev = Event::InstrumentHalted {
        seq: SequenceNo::first(),
        instrument_id: InstrumentId(1),
    };
    for _ in 0..RING_CAP {
        assert!(engine.publish(&mut tx, &mut ring, ev));
    }
    assert!(!engine.publish(&mut tx, &mut ring, ev));
    assert_eq!(engine.metrics().outbound_drops, 1);
    assert!(rx.try_pop(&mut ring).is_some());
    assert!(engine.publish(&mut tx, &mut ring, ev));
    assert_eq!(engine.metrics().outbound_drops, 1);
}

#[test]
fn publishing_gives_up_after_the_last_retry() {
    assert_eq!(publish_step(1, true), PublishStep::Done);
    assert_eq!(publish_step(1, false), PublishStep::Retry);
    assert_eq!(
        publish_step(MAX_PUBLISH_RETRIES - 1, false),
        PublishStep::Retry
    );
    assert_eq!(publish_step(MAX_PUBLISH_RETRIES, false), PublishStep::Drop);
    assert_eq!(publish_step(MAX_PUBLISH_RETRIES, true), PublishStep::Done);
}

#[test]
fn shutdown_stops_the_loop() {
    let (mut engine, _states) = mk_engine();
    assert!(engine.running);
    engine.shutdown();
    assert!(!engine.running);
}

#[test]
fn cpu_set_has_one_bit() {
    let s = CpuSet::only(65);
    assert_eq!(s.bits[1], 2);
    assert_eq!(s.bits.iter().map(|w| w.count_ones()).sum::<u32>(), 1);
    let none = CpuSet::only(1024);
    assert!(none.bits.iter().all(|w| *w == 0));
}

#[test]
fn liquidation_cancels_what_the_account_has_open() {
    let (mut engine, states) = mk_engine();
    let at = |seq: u64, account: u64, side: Side, price: i64| SequencedCommand {
        seq,
        ts_ns: 0,
        cmd: InboundCommand::NewOrder {
            account: AccountId(account),
            client_order_id: ClientOrderId::new(seq),
            symbol: Symbol(1),
            side,
            price: Price(price),
            qty: Qty(10),
            order_type: OrderType::Limit,
            time_in_force: TimeInForce::Gtc,
        },
    };
    for cmd in [
        at(1, 1, Side::Buy, 90),
        at(2, 2, Side::Buy, 91),
        at(3, 1, Side::Buy, 92),
        at(4, 1, Side::Sell, 110),
        at(5, 2, Side::Sell, 111),
    ] {
        engine.handle_command(cmd, &states);
    }
    let before = engine.metrics().snapshot();
    let liquidate = SequencedCommand {
        seq: 6,
        ts_ns: 0,
        cmd: InboundCommand::Liquidate {
            symbol: Symbol(1),
            account: AccountId(1),
        },
    };
    let events = engine.handle_command(liquidate, &states);
    let expected: Vec<Event> = [3, 1, 4]
        .iter()
        .map(|id| Event::Canceled {
            seq: SequenceNo::new(6).unwrap(),
            instrument_id: InstrumentId(1),
            order_id: OrderId(*id),
            account_id: AccountId(1),
            reason: CancelReason::RiskLimitBreach,
            remaining_qty: Qty(0),
        })
        .collect();
    assert_eq!(events, expected);
    assert_eq!(engine.book.open_order_count(), 2);
    assert_eq!(engine.book.best_bid(), Some(Price(91)));
    assert_eq!(engine.book.best_ask(), Some(Price(111)));
    assert_eq!(
        engine.metrics().snapshot().orders_processed,
        before.orders_processed
    );
    // Nothing is left to cancel.
    assert!(engine.handle_command(liquidate, &states).is_empty());
}

#[test]
fn an_order_that_could_not_be_booked_is_rejected_by_the_risk_check() {
    let (mut engine, mut states) = mk_engine();
    engine.handle_command(order(1, 1, 0, Side::Buy), &states);
    states.get_mut(2).set_halted(true);
    // Its sequence number is taken, and its quantity could not be added up.
    let mut cmd = order(1, 2, 0, Side::Buy);
    if let InboundCommand::NewOrder { qty, .. } = &mut cmd.cmd {
        *qty = Qty(u64::MAX);
    }
    assert!(!engine.book.can_take(&cmd));
    let events = engine.handle_command(cmd, &states);
    assert_eq!(events.len(), 1);
    assert!(matches!(events[0], Event::Rejected { .. }));
    assert_eq!(engine.book.open_order_count(), 1);
    assert_eq!(engine.book.bid_qty_at(Price(100)), Qty(10));
}

//! Laws of several modules on concrete values.

use bytes::BytesMut;
use std::collections::{HashMap, HashSet};

use match_risk_engine::core_types::events::{EngineEvent, Event, RejectReason};
use match_risk_engine::core_types::ids::{
    AccountId, ClientOrderId, OrderId, SequenceNo, Symbol,
};
use match_risk_engine::core_types::le::push_le;
use match_risk_engine::core_types::price::Price;
use match_risk_engine::core_types::qty::Qty;
use match_risk_engine::core_types::side::Side;
use match_risk_engine::gateway::codec::{read_le, Codec};
use match_risk_engine::gateway::session::{Session, SessionId, LANE_CAP};
use match_risk_engine::matching_engine::mapper::{map_engine_event, map_engine_events};
use match_risk_engine::matching_engine::metrics::EngineMetrics;
use match_risk_engine::metrics::aggregator::MetricsAggregator;
use match_risk_engine::ring_buffer::spsc::spsc_queue;
use match_risk_engine::risk_engine::config::ShardConfig;
use match_risk_engine::risk_engine::shard::RiskShard;

fn trade(maker: u64, taker: u64, maker_side: Side, price: i64, qty: u64) -> EngineEvent {
    EngineEvent::Trade {
        seq: 0,
        ts_ns: 0,
        symbol: Symbol(2),
        price: Price(price),
        qty: Qty(qty),
        maker_order: OrderId(1),
        taker_order: OrderId(2),
        maker_order_id: OrderId(1),
        taker_order_id: OrderId(2),
        maker_acct: AccountId(maker),
        taker_acct: AccountId(taker),
        maker_side,
        maker_remaining_qty: Qty(3),
        taker_remaining_qty: Qty(4),
    }
}

#[test]
fn little_endian_numbers_come_back() {
    for (v, n) in [
        (0u64, 8usize),
        (258, 2),
        (0x0102_0304, 4),
        (u64::MAX, 8),
    ] {
        let mut bytes = vec![7u8];
        push_le(&mut bytes, v, n);
        assert_eq!(bytes.len(), 1 + n);
        assert_eq!(&bytes[1..], &v.to_le_bytes()[..n]);
        assert_eq!(read_le(&bytes, 1, n), v);
    }
}

#[test]
fn sequence_numbers_keep_their_value() {
    assert!(SequenceNo::new(0).is_none());
    assert_eq!(SequenceNo::new(9).unwrap().get(), 9);
    assert_eq!(SequenceNo::new(9).unwrap().next().get(), 10);
    assert_eq!(SequenceNo::new_or_first(0), SequenceNo::first());
}

#[test]
fn reject_reasons_differ_on_the_wire() {
    let (producer, _consumer, _ring) = spsc_queue::<_, LANE_CAP>();
    let session = Session::new(SessionId(1), AccountId(42), producer);
    let reasons = [
        RejectReason::InvalidPrice,
        RejectReason::InvalidQuantity,
        RejectReason::UnknownInstrument,
        RejectReason::InstrumentHalted,
        RejectReason::RiskLimitBreach,
        RejectReason::UnknownOrder,
        RejectReason::InvalidQty,
        RejectReason::PriceOutOfRange,
        RejectReason::ArenaFull,
        RejectReason::IocNoMatch,
        RejectReason::OrderNotFound,
        RejectReason::WrongAccount,
        RejectReason::FokNotFullyFillable,
        RejectReason::UnsupportedOrderType,
    ];
    let mut seen = HashSet::new();
    for reason in reasons {
        let mut out = BytesMut::new();
        let ev = Event::Rejected {
            seq: SequenceNo::first(),
            account_id: AccountId(42),
            client_order_id: ClientOrderId(1),
            reason,
        };
        assert!(session.encode_event(&ev, &mut out).unwrap());
        let frame = Codec.decode(&mut out).unwrap().unwrap();
        assert!(seen.insert(frame.payload[9]));
    }
    assert_eq!(seen.len(), reasons.len());
}

#[test]
fn every_trade_is_reported_once() {
    let events = vec![
        EngineEvent::Cancelled {
            seq: 5,
            order_id: OrderId(9),
        },
        trade(1, 2, Side::Sell, 100, 7),
        trade(3, 2, Side::Sell, 101, 8),
    ];
    let out = map_engine_events(&events);
    let qtys: Vec<u64> = out
        .iter()
        .map(|e| match e {
            Event::Filled { fill, .. } => {
                assert_eq!(fill.aggressor_side, Side::Buy);
                assert_eq!(fill.resting_remaining_qty, Qty(3));
                assert_eq!(fill.aggressor_remaining_qty, Qty(4));
                fill.qty.0
            }
            _ => panic!("expected a fill"),
        })
        .collect();
    assert_eq!(qtys, vec![7, 8]);
    // A raw sequence number of zero is shown as the first one.
    assert!(matches!(
        map_engine_event(events[1]),
        Some(Event::Filled { seq, .. }) if seq == SequenceNo::first()
    ));
    assert!(map_engine_event(events[0]).is_none());
}

#[test]
fn balance_follows_what_was_realised() {
    let mut shard = RiskShard::new(0..2, ShardConfig::new(2));
    for state in shard.states.iter_mut() {
        state.update(10_000_00000000, 0, false, false, 0, 0);
    }
    let marks = HashMap::new();
    let one = 1_00000000;
    shard.process_event(trade(0, 1, Side::Buy, 100_00000000, one), &marks);
    shard.process_event(trade(0, 1, Side::Sell, 130_00000000, one), &marks);
    assert_eq!(shard.states[0].balance, 10_030_00000000);
    assert_eq!(shard.states[1].balance, 9_970_00000000);
    assert_eq!(shard.states[0].used_margin, 0);
    assert_eq!(shard.position(AccountId(0), Symbol(2)).unwrap().net_qty, 0);
}

#[test]
fn totals_do_not_depend_on_the_order_of_registration() {
    let mut a = EngineMetrics::new();
    a.record_order(3, false);
    a.match_latency.record(10);
    let mut b = EngineMetrics::new();
    b.record_order(4, false);
    b.record_order(0, true);
    b.match_latency.record(5000);
    let mut first = MetricsAggregator::new(0, 0);
    first.register_shard(1, a);
    first.register_shard(2, b);
    let mut second = MetricsAggregator::new(0, 0);
    second.register_shard(2, b);
    second.register_shard(1, a);
    let x = first.collect_now(0).totals;
    let y = second.collect_now(0).totals;
    assert_eq!(x.fills_generated, 7);
    assert_eq!(x.fills_generated, y.fills_generated);
    assert_eq!(x.risk_rejects, y.risk_rejects);
    assert_eq!(x.match_latency.buckets, y.match_latency.buckets);
    assert_eq!(x.match_latency.mean_ns, 2505);
    assert_eq!(y.match_latency.mean_ns, 2505);
}

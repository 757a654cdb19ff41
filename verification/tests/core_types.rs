//! Prices, quantities, identifiers, sides, commands, events and statuses.

use match_risk_engine::core_types::commands::{
    CancelOrder, Command, ModifyOrder, NewOrder, OrderType, TimeInForce,
};
use match_risk_engine::core_types::events::{CancelReason, Event, Fill, RejectReason};
use match_risk_engine::core_types::ids::{
    AccountId, ClientOrderId, InstrumentId, OrderId, SequenceNo,
};
use match_risk_engine::core_types::le::push_le;
use match_risk_engine::core_types::order_status::OrderStatus;
use match_risk_engine::core_types::price::Price;
use match_risk_engine::core_types::qty::Qty;
use match_risk_engine::core_types::side::Side;

fn sample_new_order() -> NewOrder {
    NewOrder {
        account_id: AccountId::new(1),
        instrument_id: InstrumentId::new(7),
        client_order_id: ClientOrderId::new(100),
        side: Side::Buy,
        price: Price::new(10_050),
        order_type: OrderType::Limit,
        qty: Qty::new(10),
        time_in_force: TimeInForce::Gtc,
    }
}

#[test]
fn command_accessors() {
    let cmd = Command::New(sample_new_order());
    assert_eq!(cmd.instrument_id(), Some(InstrumentId::new(7)));
    assert_eq!(cmd.account_id(), Some(AccountId::new(1)));

    let halt = Command::Halt { instrument_id: InstrumentId::new(3) };
    assert_eq!(halt.instrument_id(), Some(InstrumentId::new(3)));
    assert_eq!(halt.account_id(), None);
}

#[test]
fn command_is_copy() {
    let cmd = Command::New(sample_new_order());
    let cmd2 = cmd; // Copy, not move
    assert_eq!(cmd, cmd2);
}

#[test]
fn accessors_of_the_other_commands() {
    let cancel = Command::Cancel(CancelOrder {
        account_id: AccountId::new(4),
        instrument_id: InstrumentId::new(5),
        order_id: OrderId::new(6),
    });
    assert_eq!(cancel.instrument_id(), Some(InstrumentId::new(5)));
    assert_eq!(cancel.account_id(), Some(AccountId::new(4)));

    let modify = Command::Modify(ModifyOrder {
        account_id: AccountId::new(8),
        instrument_id: InstrumentId::new(9),
        order_id: OrderId::new(10),
        new_qty: Qty::new(1),
        new_price: None,
    });
    assert_eq!(modify.instrument_id(), Some(InstrumentId::new(9)));
    assert_eq!(modify.account_id(), Some(AccountId::new(8)));

    let resume = Command::Resume { instrument_id: InstrumentId::new(11) };
    assert_eq!(resume.instrument_id(), Some(InstrumentId::new(11)));
    assert_eq!(resume.account_id(), None);
}

#[test]
fn event_seq_accessor() {
    let seq = SequenceNo::first();
    let ev = Event::InstrumentHalted { seq, instrument_id: InstrumentId::new(1) };
    assert_eq!(ev.seq(), seq);
}

#[test]
fn fill_event_roundtrip() {
    let seq = SequenceNo::first();
    let fill = Fill {
        instrument_id: InstrumentId::new(1),
        aggressor_order_id: OrderId::new(2),
        aggressor_account_id: AccountId::new(10),
        aggressor_side: Side::Buy,
        resting_order_id: OrderId::new(3),
        resting_account_id: AccountId::new(20),
        price: Price::new(10_000),
        qty: Qty::new(5),
        resting_remaining_qty: Qty::new(0),
        aggressor_remaining_qty: Qty::new(0),
    };
    let ev = Event::Filled { seq, fill };
    assert_eq!(ev.seq(), seq);
    if let Event::Filled { fill: f, .. } = ev {
        assert_eq!(f.price, Price::new(10_000));
    } else {
        panic!("expected Filled variant");
    }
}

#[test]
fn every_event_carries_its_seq() {
    let seq = SequenceNo::new(77).unwrap();
    let events = [
        Event::Canceled {
            seq,
            instrument_id: InstrumentId::new(1),
            order_id: OrderId::new(2),
            account_id: AccountId::new(3),
            reason: CancelReason::TimeInForceExpired,
            remaining_qty: Qty::new(4),
        },
        Event::Rejected {
            seq,
            account_id: AccountId::new(3),
            client_order_id: ClientOrderId::new(5),
            reason: RejectReason::InvalidPrice,
        },
        Event::Modified {
            seq,
            instrument_id: InstrumentId::new(1),
            order_id: OrderId::new(2),
            account_id: AccountId::new(3),
            new_qty: Qty::new(4),
            new_price: Some(Price::new(5)),
        },
        Event::InstrumentResumed { seq, instrument_id: InstrumentId::new(1) },
    ];
    for e in events.iter() {
        assert_eq!(e.seq().get(), 77);
    }
}

#[test]
fn id_roundtrip() {
    let id = OrderId::new(42);
    assert_eq!(id.get(), 42);
    assert_eq!(OrderId::from(42u64), id);
}

#[test]
fn sequence_no_basic() {
    assert_eq!(SequenceNo::new(0), None);
    let first = SequenceNo::first();
    assert_eq!(first.get(), 1);
    assert_eq!(first.next().get(), 2);
}

#[test]
fn zero_stands_for_the_first_sequence_number() {
    assert_eq!(SequenceNo::new_or_first(0).get(), 1);
    assert_eq!(SequenceNo::new_or_first(9).get(), 9);
}

#[test]
fn roundtrip_u8() {
    for status in [
        OrderStatus::Pending,
        OrderStatus::Addressed,
        OrderStatus::Unaddressed,
        OrderStatus::FinallyHandled,
    ] {
        let v: u8 = status.into();
        assert_eq!(OrderStatus::from_u8(v), Some(status));
    }
}

#[test]
fn invalid_u8_returns_none() {
    assert_eq!(OrderStatus::from_u8(4), None);
    assert_eq!(OrderStatus::from_u8(255), None);
}

#[test]
fn terminal_states() {
    assert!(!OrderStatus::Pending.is_terminal());
    assert!(OrderStatus::Addressed.is_terminal());
    assert!(!OrderStatus::Unaddressed.is_terminal());
    assert!(OrderStatus::FinallyHandled.is_terminal());
}

#[test]
fn status_names() {
    assert_eq!(OrderStatus::Pending.label(), "Pending");
    assert_eq!(OrderStatus::Addressed.label(), "Addressed");
    assert_eq!(OrderStatus::Unaddressed.label(), "Unaddressed");
    assert_eq!(OrderStatus::FinallyHandled.label(), "FinallyHandled");
    assert!(OrderStatus::Pending.is_pending());
    assert!(!OrderStatus::Unaddressed.is_pending());
}

#[test]
fn arithmetic() {
    let a = Price::new(100);
    let b = Price::new(50);
    assert_eq!(a + b, Price::new(150));
    assert_eq!(a - b, Price::new(50));
    assert_eq!(-a, Price::new(-100));
}

#[test]
fn checked_ops_overflow() {
    assert_eq!(Price::max_value().checked_add(Price::new(1)), None);
    assert_eq!(Price::min_value().checked_sub(Price::new(1)), None);
}

#[test]
fn ordering() {
    assert!(Price::new(10) < Price::new(20));
    assert!(Price::zero() < Price::new(1));
}

#[test]
fn checked_ops_of_prices_in_range() {
    assert_eq!(Price::new(7).checked_add(Price::new(-9)), Some(Price::new(-2)));
    assert_eq!(Price::new(7).checked_sub(Price::new(-9)), Some(Price::new(16)));
    assert!(Price::new(1).is_positive());
    assert!(!Price::zero().is_positive());
    assert_eq!(Price::from_raw(5).raw(), 5);
    assert_eq!(Price::from(5i64).ticks(), 5);
}

#[test]
fn min_and_saturating() {
    let a = Qty::new(10);
    let b = Qty::new(7);
    assert_eq!(a.min(b), b);
    assert_eq!(b.saturating_sub(a), Qty::zero());
    assert_eq!(a.saturating_sub(b), Qty::new(3));
}

#[test]
fn checked_ops() {
    assert_eq!(Qty::new(5).checked_sub(Qty::new(10)), None);
    assert_eq!(Qty::max_value().checked_add(Qty::new(1)), None);
}

#[test]
fn assign_ops() {
    let mut q = Qty::new(10);
    q.add_assign(Qty::new(5));
    assert_eq!(q, Qty::new(15));
    q.sub_assign(Qty::new(3));
    assert_eq!(q, Qty::new(12));
}

#[test]
fn quantities_in_range() {
    assert_eq!(Qty::new(5) + Qty::new(6), Qty::new(11));
    assert_eq!(Qty::new(6) - Qty::new(5), Qty::new(1));
    assert_eq!(Qty::new(6).checked_sub(Qty::new(6)), Some(Qty::zero()));
    assert_eq!(Qty::new(6).checked_add(Qty::new(6)), Some(Qty::new(12)));
    assert!(Qty::zero().is_zero());
    assert!(!Qty::from(1u64).is_zero());
    assert_eq!(Qty::from_raw(8).lots(), 8);
}

#[test]
fn opposite_is_involution() {
    assert_eq!(Side::Buy.opposite(), Side::Sell);
    assert_eq!(Side::Sell.opposite(), Side::Buy);
    assert_eq!(Side::Buy.opposite().opposite(), Side::Buy);
}

#[test]
fn sign_convention() {
    assert_eq!(Side::Buy.sign(), 1);
    assert_eq!(Side::Sell.sign(), -1);
}

#[test]
fn side_names() {
    assert_eq!(Side::Buy.label(), "BUY");
    assert_eq!(Side::Sell.label(), "SELL");
    assert!(Side::Buy.is_buy() && !Side::Buy.is_sell());
    assert!(Side::Sell.is_sell() && !Side::Sell.is_buy());
}

#[test]
fn little_endian_bytes() {
    let mut out = Vec::new();
    push_le(&mut out, 0x0102_0304, 4);
    assert_eq!(out, vec![4u8, 3, 2, 1]);
    push_le(&mut out, 0x1FF, 1);
    assert_eq!(out, vec![4u8, 3, 2, 1, 0xFF]);
}

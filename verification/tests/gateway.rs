//! The wire format, sessions and market data.

use bytes::{BufMut, BytesMut};
use std::collections::HashSet;

use match_risk_engine::core_types::commands::{Command, OrderType, TimeInForce};
use match_risk_engine::core_types::events::{CancelReason, Event, Fill, RejectReason};
use match_risk_engine::core_types::ids::{
    AccountId, ClientOrderId, InstrumentId, OrderId, SequenceNo,
};
use match_risk_engine::core_types::price::Price;
use match_risk_engine::core_types::qty::Qty;
use match_risk_engine::core_types::side::Side;
use match_risk_engine::gateway::codec::{Codec, CodecError, MAX_FRAME_LEN};
use match_risk_engine::gateway::connection::{Connection, ConnectionError};
use match_risk_engine::gateway::market_data::{
    encode_market_data, MarketDataEvent, MarketDataHub, SubscriptionRegistry,
};
use match_risk_engine::gateway::server::{read_auth_frame, recipients, AuthError};
use match_risk_engine::gateway::session::{
    Session, SessionError, SessionId, CANCEL_ORDER, LANE_CAP, MARKET_DATA, NEW_ORDER,
    SUBSCRIBE_MD, UNSUBSCRIBE_MD,
};
use match_risk_engine::ring_buffer::spsc::{spsc_queue, SpscConsumer, SpscShared};

#[test]
fn encode_then_decode_roundtrip() {
    let codec = Codec;
    let mut buf = BytesMut::new();
    codec.encode(0x01, b"hello", &mut buf).unwrap();

    let frame = codec.decode(&mut buf).unwrap().unwrap();
    assert_eq!(frame.msg_type, 0x01);
    assert_eq!(&frame.payload[..], b"hello");
    assert!(buf.is_empty());
}

#[test]
fn decode_incomplete_header_returns_none() {
    let codec = Codec;
    let mut buf = BytesMut::from(&b"\x05\x00"[..]); // only 2 of 4 header bytes
    assert!(codec.decode(&mut buf).unwrap().is_none());
    // buf untouched
    assert_eq!(buf.len(), 2);
}

#[test]
fn decode_incomplete_body_returns_none_and_reserves() {
    let codec = Codec;
    let mut buf = BytesMut::new();
    // Claim a 10-byte payload but only provide 4.
    buf.put_u32_le(10);
    buf.put_slice(&[1, 2, 3, 4]);
    assert!(codec.decode(&mut buf).unwrap().is_none());
    assert_eq!(buf.len(), 8); // untouched
    assert!(buf.capacity() >= 4 + 10);
}

#[test]
fn decode_rejects_oversized_frame() {
    let codec = Codec;
    let mut buf = BytesMut::new();
    buf.put_u32_le(MAX_FRAME_LEN + 1);
    let err = codec.decode(&mut buf).unwrap_err();
    assert_eq!(err, CodecError::FrameTooLarge(MAX_FRAME_LEN + 1));
}

#[test]
fn decode_rejects_zero_length() {
    let codec = Codec;
    let mut buf = BytesMut::new();
    buf.put_u32_le(0);
    let err = codec.decode(&mut buf).unwrap_err();
    assert_eq!(err, CodecError::FrameTooShort);
}

#[test]
fn multiple_frames_in_one_buffer() {
    let codec = Codec;
    let mut buf = BytesMut::new();
    codec.encode(0x01, b"a", &mut buf).unwrap();
    codec.encode(0x02, b"bb", &mut buf).unwrap();

    let f1 = codec.decode(&mut buf).unwrap().unwrap();
    assert_eq!(f1.msg_type, 0x01);
    assert_eq!(&f1.payload[..], b"a");

    let f2 = codec.decode(&mut buf).unwrap().unwrap();
    assert_eq!(f2.msg_type, 0x02);
    assert_eq!(&f2.payload[..], b"bb");

    assert!(buf.is_empty());
}

#[test]
fn frame_bytes_are_length_type_payload() {
    let mut buf = BytesMut::new();
    Codec.encode(0x7f, &[9, 8, 7], &mut buf).unwrap();
    assert_eq!(&buf[..], &[4, 0, 0, 0, 0x7f, 9, 8, 7]);
}

#[test]
fn encode_rejects_what_decode_would_reject() {
    let mut buf = BytesMut::new();
    let longest = vec![0u8; MAX_FRAME_LEN as usize - 1];
    assert_eq!(Codec.encode(1, &longest, &mut buf), Ok(()));
    assert!(Codec.decode(&mut buf).unwrap().is_some());
    let too_long = vec![0u8; MAX_FRAME_LEN as usize];
    assert_eq!(
        Codec.encode(1, &too_long, &mut buf),
        Err(CodecError::FrameTooLarge(MAX_FRAME_LEN + 1))
    );
    assert!(buf.is_empty());
}

fn make_session() -> (
    Session,
    SpscConsumer<Command, LANE_CAP>,
    SpscShared<Command, LANE_CAP>,
) {
    let (producer, consumer, ring) = spsc_queue::<Command, LANE_CAP>();
    let session = Session::new(SessionId(1), AccountId::new(42), producer);
    (session, consumer, ring)
}

fn encode_new_order_payload(
    coid: u64,
    instr: u64,
    side: u8,
    otype: u8,
    price: i64,
    qty: u64,
    tif: u8,
) -> BytesMut {
    let mut b = BytesMut::new();
    b.put_u64_le(coid);
    b.put_u64_le(instr);
    b.put_u8(side);
    b.put_u8(otype);
    b.put_i64_le(price);
    b.put_u64_le(qty);
    b.put_u8(tif);
    b
}

#[test]
fn new_order_roundtrip_enqueues_command() {
    let (mut session, mut consumer, mut ring) = make_session();
    let codec = Codec;

    let payload = encode_new_order_payload(7, 1, 0, 0, 10_050, 5, 0);
    let mut wire = BytesMut::new();
    codec.encode(NEW_ORDER, &payload, &mut wire).unwrap();

    let action = session.handle_inbound(&mut wire, &mut ring).unwrap();
    assert!(action.is_none());

    let cmd = consumer.try_pop(&mut ring).expect("command enqueued");
    match cmd {
        Command::New(n) => {
            assert_eq!(n.account_id, AccountId::new(42));
            assert_eq!(n.instrument_id, InstrumentId::new(1));
            assert_eq!(n.client_order_id, ClientOrderId::new(7));
            assert_eq!(n.side, Side::Buy);
            assert_eq!(n.qty, Qty::new(5));
            assert_eq!(n.order_type, OrderType::Limit);
            assert_eq!(n.price, Price::new(10_050));
        }
        _ => panic!("expected limit order"),
    }
}

#[test]
fn rejects_zero_quantity() {
    let (mut session, _consumer, mut ring) = make_session();
    let codec = Codec;

    let payload = encode_new_order_payload(1, 1, 0, 0, 100, 0, 0);
    let mut wire = BytesMut::new();
    codec.encode(NEW_ORDER, &payload, &mut wire).unwrap();

    let err = session.handle_inbound(&mut wire, &mut ring).unwrap_err();
    assert!(matches!(err, SessionError::MalformedPayload { .. }));
}

#[test]
fn subscribe_and_unsubscribe() {
    let (mut session, _consumer, mut ring) = make_session();
    let codec = Codec;

    let mut payload = BytesMut::new();
    payload.put_u64_le(99);

    let mut wire = BytesMut::new();
    codec.encode(SUBSCRIBE_MD, &payload, &mut wire).unwrap();
    session.handle_inbound(&mut wire, &mut ring).unwrap();
    assert!(session.is_subscribed(InstrumentId::new(99)));

    let mut wire2 = BytesMut::new();
    codec.encode(UNSUBSCRIBE_MD, &payload, &mut wire2).unwrap();
    session.handle_inbound(&mut wire2, &mut ring).unwrap();
    assert!(!session.is_subscribed(InstrumentId::new(99)));
}

#[test]
fn order_mapping_lookup() {
    let (mut session, _consumer, _ring) = make_session();
    session.record_order_mapping(ClientOrderId::new(5), OrderId::new(1000));
    assert_eq!(
        session.client_order_id_for(OrderId::new(1000)),
        Some(ClientOrderId::new(5))
    );
    assert_eq!(session.client_order_id_for(OrderId::new(9999)), None);
}

fn accepted(account: u64) -> Event {
    Event::Accepted {
        seq: SequenceNo::first(),
        instrument_id: InstrumentId::new(1),
        order_id: OrderId::new(55),
        account_id: AccountId::new(account),
        client_order_id: ClientOrderId::new(7),
        side: Side::Buy,
        price: Price::new(100),
        qty: Qty::new(5),
    }
}

#[test]
fn encode_accepted_event_for_own_account() {
    let (session, _consumer, _ring) = make_session();
    let ev = accepted(42); // matches session
    let mut out = BytesMut::new();
    let written = session.encode_event(&ev, &mut out).unwrap();
    assert!(written);
    assert!(!out.is_empty());
}

#[test]
fn does_not_encode_event_for_other_account() {
    let (session, _consumer, _ring) = make_session();
    let ev = accepted(999); // does not match session
    let mut out = BytesMut::new();
    let written = session.encode_event(&ev, &mut out).unwrap();
    assert!(!written);
    assert!(out.is_empty());
}

#[test]
fn report_has_the_documented_bytes() {
    let (session, _consumer, _ring) = make_session();
    let mut out = BytesMut::new();
    session.encode_event(&accepted(42), &mut out).unwrap();
    let mut expected = BytesMut::new();
    expected.put_u32_le(35);
    expected.put_u8(0x81);
    expected.put_u8(0); // accepted
    expected.put_u64_le(55);
    expected.put_u64_le(7);
    expected.put_u8(0); // buy
    expected.put_i64_le(100);
    expected.put_u64_le(5);
    assert_eq!(out, expected);

    let mut out = BytesMut::new();
    let ev = Event::Canceled {
        seq: SequenceNo::first(),
        instrument_id: InstrumentId::new(1),
        order_id: OrderId::new(55),
        account_id: AccountId::new(42),
        reason: CancelReason::InstrumentHalted,
        remaining_qty: Qty(3),
    };
    session.encode_event(&ev, &mut out).unwrap();
    let mut expected = BytesMut::new();
    expected.put_u32_le(19);
    expected.put_u8(0x81);
    expected.put_u8(2); // cancelled
    expected.put_u64_le(55);
    expected.put_u8(3); // halted
    expected.put_u64_le(3);
    assert_eq!(out, expected);

    let mut out = BytesMut::new();
    let ev = Event::Rejected {
        seq: SequenceNo::first(),
        account_id: AccountId::new(42),
        client_order_id: ClientOrderId(9),
        reason: RejectReason::FokNotFullyFillable,
    };
    session.encode_event(&ev, &mut out).unwrap();
    assert_eq!(out[out.len() - 1], 12);
    assert_eq!(out.len(), 15);
}

#[test]
fn each_side_of_a_fill_is_told_of_its_own_order() {
    let (session, _consumer, _ring) = make_session(); // of account 42
    let fill = Fill {
        instrument_id: InstrumentId::new(1),
        aggressor_order_id: OrderId::new(2),
        aggressor_account_id: AccountId::new(10),
        aggressor_side: Side::Buy,
        resting_order_id: OrderId::new(3),
        resting_account_id: AccountId::new(42),
        price: Price(10_000),
        qty: Qty(5),
        resting_remaining_qty: Qty(1),
        aggressor_remaining_qty: Qty(0),
    };
    let report = |fill: Fill| {
        let mut out = BytesMut::new();
        let seq = SequenceNo::first();
        let told = session.encode_event(&Event::Filled { seq, fill }, &mut out);
        (told, out)
    };
    let bytes = |order_id: u64, remaining: u64, is_aggressor: u8| {
        let mut expected = BytesMut::new();
        expected.put_u32_le(35);
        expected.put_u8(0x81);
        expected.put_u8(1); // filled
        expected.put_u64_le(order_id);
        expected.put_i64_le(10_000);
        expected.put_u64_le(5);
        expected.put_u64_le(remaining);
        expected.put_u8(is_aggressor);
        expected
    };

    // The resting order is the session's own.
    let (told, out) = report(fill);
    assert!(told.unwrap());
    assert_eq!(out, bytes(3, 1, 0));

    // The incoming order is.
    let (told, out) = report(Fill {
        aggressor_account_id: AccountId::new(42),
        resting_account_id: AccountId::new(10),
        ..fill
    });
    assert!(told.unwrap());
    assert_eq!(out, bytes(2, 0, 1));

    // Both are: the incoming one comes first.
    let (told, out) = report(Fill {
        aggressor_account_id: AccountId::new(42),
        ..fill
    });
    assert!(told.unwrap());
    assert_eq!(out, bytes(2, 0, 1));

    // Neither is.
    let (told, out) = report(Fill {
        resting_account_id: AccountId::new(11),
        ..fill
    });
    assert!(!told.unwrap());
    assert!(out.is_empty());
}

fn malformed_reason(payload: &[u8], msg_type: u8) -> &'static str {
    let (mut session, mut consumer, mut ring) = make_session();
    let mut wire = BytesMut::new();
    Codec.encode(msg_type, payload, &mut wire).unwrap();
    let err = session.handle_inbound(&mut wire, &mut ring).unwrap_err();
    assert!(consumer.try_pop(&mut ring).is_none());
    match err {
        SessionError::MalformedPayload {
            msg_type: m,
            reason,
        } => {
            assert_eq!(m, msg_type);
            reason
        }
        _ => panic!("expected a malformed payload"),
    }
}

#[test]
fn malformed_orders_say_what_is_wrong() {
    assert_eq!(
        malformed_reason(&[1, 2, 3], NEW_ORDER),
        "unexpected payload length"
    );
    let p = encode_new_order_payload(1, 1, 2, 0, 100, 1, 0);
    assert_eq!(malformed_reason(&p, NEW_ORDER), "invalid side");
    let p = encode_new_order_payload(1, 1, 0, 2, 100, 1, 0);
    assert_eq!(malformed_reason(&p, NEW_ORDER), "invalid order_type");
    let p = encode_new_order_payload(1, 1, 0, 0, 100, 1, 3);
    assert_eq!(malformed_reason(&p, NEW_ORDER), "invalid time_in_force");
    let p = encode_new_order_payload(1, 1, 0, 0, 100, 0, 0);
    assert_eq!(malformed_reason(&p, NEW_ORDER), "qty must be > 0");
    assert_eq!(
        malformed_reason(&[0; 15], CANCEL_ORDER),
        "unexpected payload length"
    );
}

#[test]
fn unknown_message_type_is_an_error() {
    assert_eq!(malformed_reason(&[], 0x60), "unknown inbound message type");
}

#[test]
fn broken_frame_is_an_error() {
    let (mut session, _consumer, mut ring) = make_session();
    let mut wire = BytesMut::new();
    wire.put_u32_le(0);
    let err = session.handle_inbound(&mut wire, &mut ring).unwrap_err();
    assert!(matches!(
        err,
        SessionError::Codec(CodecError::FrameTooShort)
    ));
}

#[test]
fn full_ring_refuses_the_order() {
    let (mut session, _consumer, mut ring) = make_session();
    let payload = encode_new_order_payload(7, 1, 1, 0, 10_050, 5, 2);
    for i in 0..=LANE_CAP {
        let mut wire = BytesMut::new();
        Codec.encode(NEW_ORDER, &payload, &mut wire).unwrap();
        let r = session.handle_inbound(&mut wire, &mut ring);
        if i < LANE_CAP {
            assert!(r.is_ok());
        } else {
            assert!(matches!(r, Err(SessionError::QueueFull)));
        }
    }
}

#[test]
fn all_complete_frames_are_handled_at_once() {
    let (mut session, mut consumer, mut ring) = make_session();
    let mut wire = BytesMut::new();
    for coid in 1..=3 {
        let payload = encode_new_order_payload(coid, 1, 0, 0, 100, 5, 1);
        Codec.encode(NEW_ORDER, &payload, &mut wire).unwrap();
    }
    let mut cancel = BytesMut::new();
    cancel.put_u64_le(4);
    cancel.put_u64_le(77);
    Codec.encode(CANCEL_ORDER, &cancel, &mut wire).unwrap();
    wire.put_slice(&[9, 0]); // the start of another frame

    session.handle_all(&mut wire, &mut ring).unwrap();
    assert_eq!(wire.len(), 2);
    for coid in 1..=3 {
        match consumer.try_pop(&mut ring) {
            Some(Command::New(n)) => {
                assert_eq!(n.client_order_id, ClientOrderId(coid));
                assert_eq!(n.time_in_force, TimeInForce::Ioc);
            }
            _ => panic!("expected an order"),
        }
    }
    match consumer.try_pop(&mut ring) {
        Some(Command::Cancel(c)) => {
            assert_eq!(c.instrument_id, InstrumentId(4));
            assert_eq!(c.order_id, OrderId(77));
            assert_eq!(c.account_id, AccountId(42));
        }
        _ => panic!("expected a cancel"),
    }
    assert!(consumer.try_pop(&mut ring).is_none());
}

#[test]
fn only_new_subscriptions_are_forwarded() {
    let (mut session, _consumer, mut ring) = make_session();
    let mut forwarded = HashSet::new();
    for instr in [5u64, 6] {
        let mut payload = BytesMut::new();
        payload.put_u64_le(instr);
        let mut wire = BytesMut::new();
        Codec.encode(SUBSCRIBE_MD, &payload, &mut wire).unwrap();
        session.handle_inbound(&mut wire, &mut ring).unwrap();
        assert_eq!(session.new_subscriptions(&mut forwarded), vec![instr]);
    }
    assert!(session.new_subscriptions(&mut forwarded).is_empty());
    assert_eq!(session.id(), SessionId(1));
    assert_eq!(session.account_id(), AccountId(42));
}

#[test]
fn subscription_registry_basic() {
    let mut reg = SubscriptionRegistry::default();
    let instr = InstrumentId::new(1);
    reg.add(instr, SessionId(1));
    reg.add(instr, SessionId(2));
    assert_eq!(reg.subscriber_count(instr), 2);

    reg.remove(instr, SessionId(1));
    assert_eq!(reg.subscriber_count(instr), 1);

    reg.remove(instr, SessionId(2));
    assert_eq!(reg.subscriber_count(instr), 0);
}

#[test]
fn subscribing_twice_counts_once() {
    let mut reg = SubscriptionRegistry::default();
    let instr = InstrumentId::new(1);
    reg.add(instr, SessionId(1));
    reg.add(instr, SessionId(1));
    assert_eq!(reg.subscriber_count(instr), 1);
    assert_eq!(reg.subscriber_count(InstrumentId::new(2)), 0);
    reg.remove(InstrumentId::new(2), SessionId(1));
    reg.remove(instr, SessionId(1));
    assert_eq!(reg.subscriber_count(instr), 0);
}

#[test]
fn market_data_bytes() {
    let mut out = BytesMut::new();
    let ev = MarketDataEvent::HaltStatus {
        instrument_id: InstrumentId(3),
        halted: true,
    };
    encode_market_data(&Codec, &ev, &mut out).unwrap();
    assert_eq!(&out[..], &[11, 0, 0, 0, 0x83, 2, 3, 0, 0, 0, 0, 0, 0, 0, 1]);
    assert_eq!(ev.instrument_id(), InstrumentId(3));

    let mut out = BytesMut::new();
    let ev = MarketDataEvent::TopOfBook {
        instrument_id: InstrumentId(1),
        best_bid: Some((Price(99), Qty(10))),
        best_ask: None,
    };
    encode_market_data(&Codec, &ev, &mut out).unwrap();
    let frame = Codec.decode(&mut out).unwrap().unwrap();
    assert_eq!(frame.msg_type, MARKET_DATA);
    let mut expected = BytesMut::new();
    expected.put_u8(0);
    expected.put_u64_le(1);
    expected.put_u8(1);
    expected.put_i64_le(99);
    expected.put_u64_le(10);
    expected.put_u8(0);
    expected.put_i64_le(0);
    expected.put_u64_le(0);
    assert_eq!(frame.payload, expected);

    let mut out = BytesMut::new();
    let ev = MarketDataEvent::Trade {
        instrument_id: InstrumentId(1),
        price: Price(-5),
        qty: Qty(2),
        aggressor_side: Side::Sell,
    };
    encode_market_data(&Codec, &ev, &mut out).unwrap();
    let frame = Codec.decode(&mut out).unwrap().unwrap();
    let mut expected = BytesMut::new();
    expected.put_u8(1);
    expected.put_u64_le(1);
    expected.put_i64_le(-5);
    expected.put_u64_le(2);
    expected.put_u8(1);
    assert_eq!(frame.payload, expected);
}

#[test]
fn auth_then_new_order_enqueues_command() {
    let mut wire = BytesMut::new();
    let codec = Codec;
    assert_eq!(read_auth_frame(&mut wire), Ok(None));

    // Auth frame: account_id = 42
    let mut auth_payload = BytesMut::new();
    auth_payload.put_u64_le(42);
    codec.encode(0x00, &auth_payload, &mut wire).unwrap();

    // A NEW_ORDER frame right behind it.
    let order_payload = encode_new_order_payload(1, 5, 0, 0, 10_000, 3, 0);
    codec.encode(NEW_ORDER, &order_payload, &mut wire).unwrap();

    let account = read_auth_frame(&mut wire).unwrap().unwrap();
    let (producer, mut consumer, mut ring) = spsc_queue::<Command, LANE_CAP>();
    let mut session = Session::new(SessionId(1), account, producer);
    session.handle_all(&mut wire, &mut ring).unwrap();

    let cmd = consumer.try_pop(&mut ring).expect("expected enqueued command");
    match cmd {
        Command::New(n) => {
            assert_eq!(n.account_id, AccountId::new(42));
            assert_eq!(n.instrument_id, InstrumentId::new(5));
            assert_eq!(n.client_order_id, ClientOrderId::new(1));
            assert_eq!(n.side, Side::Buy);
            assert_eq!(n.qty, Qty::new(3));
            assert_eq!(n.time_in_force, TimeInForce::Gtc);
            assert_eq!(n.order_type, OrderType::Limit);
            assert_eq!(n.price, Price::new(10_000));
        }
        _ => panic!("expected New command"),
    }
}

#[test]
fn auth_payload_must_be_an_account() {
    let mut wire = BytesMut::new();
    Codec.encode(0x00, &[1, 2, 3], &mut wire).unwrap();
    assert_eq!(read_auth_frame(&mut wire), Err(AuthError::BadPayload));
    let mut wire = BytesMut::new();
    wire.put_u32_le(0);
    assert_eq!(
        read_auth_frame(&mut wire),
        Err(AuthError::Codec(CodecError::FrameTooShort))
    );
}

#[test]
fn events_go_to_the_accounts_they_concern() {
    assert_eq!(recipients(&accepted(42)), vec![AccountId(42)]);
    let halted = Event::InstrumentHalted {
        seq: SequenceNo::first(),
        instrument_id: InstrumentId(1),
    };
    assert!(recipients(&halted).is_empty());
}

#[test]
fn connection_course() {
    let (producer, mut consumer, mut ring) = spsc_queue::<Command, LANE_CAP>();
    let mut conn = Connection::new(SessionId(3), producer);
    assert!(conn.session().is_none());
    assert!(matches!(
        conn.on_close(),
        Err(ConnectionError::ClosedDuringAuth)
    ));

    let mut wire = BytesMut::new();
    Codec.encode(0x00, &42u64.to_le_bytes(), &mut wire).unwrap();
    let mut payload = BytesMut::new();
    payload.put_u64_le(99);
    Codec.encode(SUBSCRIBE_MD, &payload, &mut wire).unwrap();
    let order = encode_new_order_payload(1, 5, 0, 0, 10_000, 3, 0);
    Codec.encode(NEW_ORDER, &order, &mut wire).unwrap();

    // The bytes arrive one by one.
    let mut buf = BytesMut::new();
    let mut subscribed = Vec::new();
    for byte in wire.iter() {
        buf.put_u8(*byte);
        subscribed.extend(conn.on_bytes(&mut buf, &mut ring).unwrap());
    }
    assert!(buf.is_empty());
    assert_eq!(subscribed, vec![99]);
    assert_eq!(conn.session().unwrap().account_id(), AccountId(42));
    assert!(matches!(
        consumer.try_pop(&mut ring),
        Some(Command::New(_))
    ));
    assert!(conn.on_close().is_ok());

    Codec.encode(0x60, &[], &mut buf).unwrap();
    assert!(matches!(
        conn.on_bytes(&mut buf, &mut ring),
        Err(ConnectionError::Session(_))
    ));
}

#[test]
fn connection_needs_an_account_first() {
    let (producer, _consumer, mut ring) = spsc_queue::<Command, LANE_CAP>();
    let mut conn = Connection::new(SessionId(3), producer);
    let mut buf = BytesMut::new();
    Codec.encode(0x00, &[1, 2], &mut buf).unwrap();
    assert!(matches!(
        conn.on_bytes(&mut buf, &mut ring),
        Err(ConnectionError::Auth(AuthError::BadPayload))
    ));
    assert!(conn.session().is_none());
}

/// An update for an instrument without subscribers goes nowhere.
#[test]
fn publish_with_no_subscribers_is_noop() {
    let hub = MarketDataHub::<u32>::new();
    let ev = MarketDataEvent::Trade {
        instrument_id: InstrumentId::new(1),
        price: Price::new(100),
        qty: Qty::new(1),
        aggressor_side: Side::Buy,
    };
    assert!(hub.publish(&ev).is_none());
    assert_eq!(hub.active_instrument_count(), 0);
}

/// The channel here is a list that updates are put into.
#[test]
fn subscribe_then_publish_delivers_event() {
    let mut hub = MarketDataHub::<std::cell::RefCell<Vec<MarketDataEvent>>>::new();
    let instrument_id = InstrumentId::new(1);
    hub.subscribe(instrument_id, Default::default());

    let update = MarketDataEvent::TopOfBook {
        instrument_id,
        best_bid: Some((Price::new(99), Qty::new(10))),
        best_ask: Some((Price::new(101), Qty::new(5))),
    };
    hub.publish(&update).unwrap().borrow_mut().push(update);

    // Subscribing again keeps the channel.
    hub.subscribe(instrument_id, Default::default());
    assert_eq!(hub.active_instrument_count(), 1);

    let received = hub.channel(instrument_id).unwrap().borrow();
    match received[0] {
        MarketDataEvent::TopOfBook {
            best_bid, best_ask, ..
        } => {
            assert_eq!(best_bid, Some((Price::new(99), Qty::new(10))));
            assert_eq!(best_ask, Some((Price::new(101), Qty::new(5))));
        }
        _ => panic!("expected TopOfBook"),
    }
    assert!(hub.channel(InstrumentId::new(2)).is_none());
}

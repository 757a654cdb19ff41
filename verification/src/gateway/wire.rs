//! What the bytes between a client and the gateway mean.
//!
//! The statements here are about the bytes themselves: which byte of a frame,
//! a message or a report holds what.

use crate::core_types::commands::{Command, NewOrder, OrderType, TimeInForce};
use crate::core_types::events::{CancelReason, Event, RejectReason};
use crate::core_types::ids::AccountId;
use crate::core_types::le;
use crate::core_types::le::{u32_at, u64_at};
use crate::core_types::price::Price;
use crate::core_types::qty::Qty;
use crate::core_types::side::Side;
use crate::gateway::codec;
use crate::gateway::codec::{CodecError, Front};
use crate::gateway::market_data;
use crate::gateway::market_data::MarketDataEvent;
use crate::gateway::server;
use crate::gateway::server::AuthError;
use crate::gateway::session;
use crate::gateway::session::{Session, SessionError, SessionModel};
use vstd::prelude::*;

verus! {

/// The number that stands for a price: the price itself, or for a negative
/// one its two's complement.
pub open spec fn stands_for(v: int, price: Price) -> bool {
    if price.0 >= 0 {
        v == price.0
    } else {
        v == price.0 + 0x1_0000_0000_0000_0000
    }
}

pub proof fn lemma_twos_complement(x: i64, y: u64)
    ensures
        stands_for(x as u64 as int, Price(x)),
        stands_for(y as int, Price(y as i64)),
{
    assert(x >= 0 ==> x as u64 == x) by (bit_vector);
    assert(x < 0 ==> x as u64 == x + 0x1_0000_0000_0000_0000) by (bit_vector);
    assert((y as i64) >= 0 ==> y as i64 == y) by (bit_vector);
    assert((y as i64) < 0 ==> y == (y as i64) + 0x1_0000_0000_0000_0000) by (bit_vector);
}

/// A frame begins with four bytes for its length, which counts the type and
/// the payload. The type comes next, and then the payload as it is. A length
/// of up to 65536 is allowed.
pub proof fn law_frame_layout(msg_type: u8, payload: Seq<u8>)
    ensures
        ({
            let f = codec::frame_bytes(msg_type, payload);
            &&& codec::fits_frame(payload) <==> payload.len() <= 65535
            &&& f.len() == payload.len() + 5
            &&& payload.len() <= 65535 ==> u32_at(f, 0) == payload.len() + 1
            &&& f[4] == msg_type
            &&& forall|i: int| 0 <= i < payload.len() ==> #[trigger] f[5 + i] == payload[i]
        }),
{
    let f = codec::frame_bytes(msg_type, payload);
    let v = (1 + payload.len()) as nat;
    le::lemma_le_len(v, 4);
    if payload.len() <= 65535 {
        le::lemma_le_limits();
        le::law_le_roundtrip(v, 4);
        le::law_lowest_byte_first(f, 0);
        assert(f.subrange(0, 4) =~= le::le_bytes(v, 4));
    }
}

/// Of bytes that came in, the first four say how long the frame is. None and
/// more than 65536 are errors. Until that many bytes have come behind the
/// four, nothing is taken.
pub proof fn law_front_of_the_stream(bytes: Seq<u8>)
    ensures
        ({
            let len = u32_at(bytes, 0);
            match codec::front_of(bytes) {
                Front::Incomplete => bytes.len() < 4 || (0 < len <= 65536 && bytes.len() < 4 + len),
                Front::Malformed(e) => bytes.len() >= 4 && ((len == 0 && e
                    == CodecError::FrameTooShort) || (len > 65536 && e
                    == CodecError::FrameTooLarge(len as u32))),
                Front::Frame { msg_type, payload, rest } => {
                    &&& bytes.len() >= 4 + len
                    &&& 0 < len <= 65536
                    &&& msg_type == bytes[4]
                    &&& payload.len() == len - 1
                    &&& rest.len() == bytes.len() - 4 - len
                    &&& forall|i: int| 0 <= i < len - 1 ==> #[trigger] payload[i] == bytes[5 + i]
                    &&& forall|i: int|
                        0 <= i < rest.len() ==> #[trigger] rest[i] == bytes[4 + len + i]
                },
            }
        }),
{
    if bytes.len() >= 4 {
        le::law_lowest_byte_first(bytes, 0);
        assert(bytes.take(4) =~= bytes.subrange(0, 4));
        le::lemma_le_limits();
        le::law_le_bytes_roundtrip(bytes.take(4));
    }
}

/// The side of an order on the wire.
pub open spec fn says_side(b: u8, side: Side) -> bool {
    (b == 0 && side == Side::Buy) || (b == 1 && side == Side::Sell)
}

/// The reason for which a payload of a new order is not understood.
pub open spec fn flaw(p: Seq<u8>) -> Option<&'static str> {
    if p.len() != 35 {
        Some("unexpected payload length")
    } else if p[16] != 0 && p[16] != 1 {
        Some("invalid side")
    } else if p[34] != 0 && p[34] != 1 && p[34] != 2 {
        Some("invalid time_in_force")
    } else if p[17] != 0 && p[17] != 1 {
        Some("invalid order_type")
    } else if forall|i: int| 26 <= i < 34 ==> p[i] == 0 {
        Some("qty must be > 0")
    } else {
        None
    }
}

/// A message with a new order has 35 bytes. Each value of the order is at its
/// place in them; the account is that of the session, whatever the bytes are.
pub proof fn law_new_order_message(account: AccountId, p: Seq<u8>)
    ensures
        match session::parse_new_order(account, p) {
            Ok(o) => {
                &&& flaw(p) is None
                &&& o.account_id == account
                &&& o.client_order_id.0 == u64_at(p, 0)
                &&& o.instrument_id.0 == u64_at(p, 8)
                &&& says_side(p[16], o.side)
                &&& (p[17] == 0 && o.order_type == OrderType::Limit) || (p[17] == 1 && o.order_type
                    == OrderType::Market)
                &&& stands_for(u64_at(p, 18), o.price)
                &&& o.qty.0 == u64_at(p, 26)
                &&& (p[34] == 0 && o.time_in_force == TimeInForce::Gtc) || (p[34] == 1
                    && o.time_in_force == TimeInForce::Ioc) || (p[34] == 2 && o.time_in_force
                    == TimeInForce::Fok)
            },
            Err(e) => flaw(p) matches Some(reason) && e == (SessionError::MalformedPayload {
                msg_type: 1,
                reason,
            }),
        },
{
    if p.len() == 35 {
        lemma_field(p, 0);
        lemma_field(p, 8);
        lemma_field(p, 18);
        lemma_field(p, 26);
        lemma_twos_complement(0, session::field(p, 18, 8));
        assert((forall|i: int| 26 <= i < 34 ==> p[i] == 0) <==> u64_at(p, 26) == 0) by {
            if u64_at(p, 26) == 0 {
                assert(p[26] == 0 && p[27] == 0 && p[28] == 0 && p[29] == 0);
                assert(p[30] == 0 && p[31] == 0 && p[32] == 0 && p[33] == 0);
            }
        }
    }
}

/// A field of eight bytes holds the number that they make up.
proof fn lemma_field(p: Seq<u8>, at: int)
    requires
        0 <= at <= p.len() - 8,
    ensures
        session::field(p, at, 8) == u64_at(p, at),
{
    le::law_lowest_byte_first(p, at);
    le::lemma_le_limits();
    le::law_le_bytes_roundtrip(p.subrange(at, at + 8));
}

/// A cancel request has 16 bytes, for the instrument and the order. A
/// subscription has eight, for the instrument. Nothing else is wrong with
/// either than another length.
pub proof fn law_short_messages(account: AccountId, p: Seq<u8>)
    ensures
        match session::parse_cancel(account, p) {
            Ok(c) => p.len() == 16 && c.account_id == account && c.instrument_id.0 == u64_at(p, 0)
                && c.order_id.0 == u64_at(p, 8),
            Err(e) => p.len() != 16 && e == (SessionError::MalformedPayload {
                msg_type: 2,
                reason: "unexpected payload length",
            }),
        },
        match session::parse_instrument(p) {
            Ok(i) => p.len() == 8 && i.0 == u64_at(p, 0),
            Err(e) => p.len() != 8 && e == (SessionError::MalformedPayload {
                msg_type: 3,
                reason: "unexpected payload length",
            }),
        },
{
    if p.len() == 16 {
        lemma_field(p, 0);
        lemma_field(p, 8);
    }
    if p.len() == 8 {
        lemma_field(p, 0);
    }
}

/// The message is understood: a new order without a flaw, or one of the other
/// requests at its length.
pub open spec fn understood(msg_type: u8, p: Seq<u8>) -> bool {
    ||| msg_type == 1 && flaw(p) is None
    ||| msg_type == 2 && p.len() == 16
    ||| (msg_type == 3 || msg_type == 4) && p.len() == 8
}

/// An order or a cancel request that is understood goes to the end of the
/// queue, if there is room behind the up to 4096 commands; nothing else
/// changes. A subscription changes what is subscribed to, and only for the
/// one instrument. A message that fails changes nothing.
pub proof fn law_message_effect(m: SessionModel, queue: Seq<Command>, msg_type: u8, p: Seq<u8>)
    ensures
        ({
            let h = m.handles(queue, msg_type, p);
            let orders = msg_type == 1 || msg_type == 2;
            &&& h.error is None <==> understood(msg_type, p) && !(orders && queue.len() == 4096)
            &&& h.error is Some ==> h.session == m && h.queue == queue
            &&& understood(msg_type, p) && h.error is Some ==> h.error == Some(
                SessionError::QueueFull,
            )
            &&& !understood(msg_type, p) ==> h.error == Some(
                SessionError::MalformedPayload {
                    msg_type: if msg_type == 4 {
                        3
                    } else {
                        msg_type
                    },
                    reason: if msg_type == 1 {
                        flaw(p)->0
                    } else if 2 <= msg_type <= 4 {
                        "unexpected payload length"
                    } else {
                        "unknown inbound message type"
                    },
                },
            )
            &&& h.session.id == m.id && h.session.account == m.account && h.session.orders
                == m.orders
            &&& orders ==> h.session.subscriptions == m.subscriptions
            &&& !orders ==> h.queue == queue
            &&& orders && h.error is None ==> {
                &&& h.queue.len() == queue.len() + 1
                &&& h.queue.drop_last() == queue
            }
            &&& msg_type == 1 && h.error is None ==> match session::parse_new_order(
                m.account,
                p,
            ) {
                Ok(o) => h.queue.last() == Command::New(o),
                Err(_) => false,
            }
            &&& msg_type == 2 && h.error is None ==> (h.queue.last() matches Command::Cancel(c)
                && c.account_id == m.account && c.instrument_id.0 == u64_at(p, 0) && c.order_id.0
                == u64_at(p, 8))
            &&& !orders && h.error is None ==> forall|i: u64| #[trigger]
                h.session.subscriptions.contains(i) <==> if i == u64_at(p, 0) {
                    msg_type == 3
                } else {
                    m.subscriptions.contains(i)
                }
        }),
{
    law_new_order_message(m.account, p);
    law_short_messages(m.account, p);
    let h = m.handles(queue, msg_type, p);
    if h.error is None && (msg_type == 1 || msg_type == 2) {
        assert(h.queue.drop_last() =~= queue);
    }
}

/// Messages are handled one by one, in the order in which they came: the first
/// with the session as it is, the others with what the first left. The first
/// that fails ends it, and what came behind it stays. A frame that is not
/// complete stays too.
pub proof fn law_messages_one_by_one(
    m: SessionModel,
    queue: Seq<Command>,
    msg_type: u8,
    p: Seq<u8>,
    rest: Seq<u8>,
)
    requires
        p.len() <= 65535,
    ensures
        ({
            let h = m.handles(queue, msg_type, p);
            let all = session::handles_all(m, queue, codec::frame_bytes(msg_type, p) + rest);
            &&& h.error is Some ==> all == (h, rest)
            &&& h.error is None ==> all == session::handles_all(h.session, h.queue, rest)
        }),
        ({
            let all = session::handles_all(m, queue, rest);
            let len = u32_at(rest, 0);
            &&& rest.len() < 4 || (0 < len <= 65536 && rest.len() < 4 + len) ==> {
                &&& all.0.error is None
                &&& all.0.session == m
                &&& all.0.queue == queue
                &&& all.1 == rest
            }
            &&& rest.len() >= 4 && (len == 0 || len > 65536) ==> {
                &&& all.0.error == Some(
                    SessionError::Codec(
                        if len == 0 {
                            CodecError::FrameTooShort
                        } else {
                            CodecError::FrameTooLarge(len as u32)
                        },
                    ),
                )
                &&& all.0.session == m
                &&& all.0.queue == queue
                &&& all.1 == rest
            }
        }),
{
    let bytes = codec::frame_bytes(msg_type, p) + rest;
    law_frame_layout(msg_type, p);
    law_front_of_the_stream(bytes);
    law_front_of_the_stream(rest);
    assert(u32_at(bytes, 0) == u32_at(codec::frame_bytes(msg_type, p), 0));
    match codec::front_of(bytes) {
        Front::Frame { msg_type: t, payload, rest: behind } => {
            assert(payload =~= p) by {
                assert forall|i: int| 0 <= i < p.len() implies payload[i] == p[i] by {
                    assert(codec::frame_bytes(msg_type, p)[5 + i] == p[i]);
                }
            }
            assert(behind =~= rest);
        },
        _ => {},
    }
}

/// What a client is told of its orders. A fill is told from the side of the
/// account: only if the incoming order is not its own, from that of the
/// resting order.
pub open spec fn reports(r: Seq<u8>, ev: Event, account: AccountId) -> bool {
    match ev {
        Event::Accepted { order_id, client_order_id, side, price, qty, .. } => {
            &&& r.len() == 34
            &&& r[0] == 0
            &&& u64_at(r, 1) == order_id.0
            &&& u64_at(r, 9) == client_order_id.0
            &&& says_side(r[17], side)
            &&& stands_for(u64_at(r, 18), price)
            &&& u64_at(r, 26) == qty.0
        },
        Event::Filled { fill, .. } => {
            let incoming = fill.aggressor_account_id == account || fill.resting_account_id
                != account;
            &&& r.len() == 34
            &&& r[0] == 1
            &&& stands_for(u64_at(r, 9), fill.price)
            &&& u64_at(r, 17) == fill.qty.0
            &&& incoming ==> {
                &&& u64_at(r, 1) == fill.aggressor_order_id.0
                &&& u64_at(r, 25) == fill.aggressor_remaining_qty.0
                &&& r[33] == 1
            }
            &&& !incoming ==> {
                &&& u64_at(r, 1) == fill.resting_order_id.0
                &&& u64_at(r, 25) == fill.resting_remaining_qty.0
                &&& r[33] == 0
            }
        },
        Event::Canceled { order_id, reason, remaining_qty, .. } => {
            &&& r.len() == 18
            &&& r[0] == 2
            &&& u64_at(r, 1) == order_id.0
            &&& r[9] == 0 <==> reason == CancelReason::UserRequested
            &&& r[9] == 1 <==> reason == CancelReason::TimeInForceExpired
            &&& r[9] == 2 <==> reason == CancelReason::RiskLimitBreach
            &&& r[9] == 3 <==> reason == CancelReason::InstrumentHalted
            &&& u64_at(r, 10) == remaining_qty.0
        },
        Event::Rejected { client_order_id, reason, .. } => {
            &&& r.len() == 10
            &&& r[0] == 3
            &&& u64_at(r, 1) == client_order_id.0
            &&& r[9] == 0 <==> reason == RejectReason::RiskLimitBreach
            &&& r[9] == 1 <==> reason == RejectReason::InstrumentHalted
            &&& r[9] == 2 <==> reason == RejectReason::InvalidPrice
            &&& r[9] == 3 <==> reason == RejectReason::InvalidQuantity
            &&& r[9] == 4 <==> reason == RejectReason::UnknownInstrument
            &&& r[9] == 5 <==> reason == RejectReason::UnknownOrder
            &&& r[9] == 6 <==> reason == RejectReason::InvalidQty
            &&& r[9] == 7 <==> reason == RejectReason::PriceOutOfRange
            &&& r[9] == 8 <==> reason == RejectReason::IocNoMatch
            &&& r[9] == 9 <==> reason == RejectReason::ArenaFull
            &&& r[9] == 10 <==> reason == RejectReason::OrderNotFound
            &&& r[9] == 11 <==> reason == RejectReason::WrongAccount
            &&& r[9] == 12 <==> reason == RejectReason::FokNotFullyFillable
            &&& r[9] == 13 <==> reason == RejectReason::UnsupportedOrderType
        },
        Event::Modified { order_id, new_qty, new_price, .. } => {
            &&& r.len() == 26
            &&& r[0] == 4
            &&& u64_at(r, 1) == order_id.0
            &&& u64_at(r, 9) == new_qty.0
            &&& r[17] == if new_price is Some {
                1int
            } else {
                0
            }
            &&& match new_price {
                Some(price) => stands_for(u64_at(r, 18), price),
                None => u64_at(r, 18) == 0,
            }
        },
        _ => r.len() == 0,
    }
}

/// A report holds what there is to say of the event, each value at its place.
/// Its type is 0x81. It goes to those whose order the event is about: the
/// owner, or both sides of a fill. A halt and its end are reported to nobody.
#[verifier::rlimit(60)]
pub proof fn law_report_layout(ev: Event, account: AccountId)
    ensures
        reports(session::report_payload(ev, account), ev, account),
        session::EXEC_REPORT == 0x81,
        session::reportable(ev) <==> !(ev is InstrumentHalted || ev is InstrumentResumed),
        Session::concerns(account, ev) == match ev {
            Event::Filled { fill, .. } => account.0 == fill.aggressor_account_id.0 || account.0
                == fill.resting_account_id.0,
            Event::Accepted { account_id, .. } => account.0 == account_id.0,
            Event::Canceled { account_id, .. } => account.0 == account_id.0,
            Event::Rejected { account_id, .. } => account.0 == account_id.0,
            Event::Modified { account_id, .. } => account.0 == account_id.0,
            _ => false,
        },
{
    broadcast use le::lemma_le_len_auto;

    let r = session::report_payload(ev, account);
    match ev {
        Event::Accepted { order_id, client_order_id, side, price, qty, .. } => {
            lemma_twos_complement(price.0, 0);
            assert(r.subrange(1, 9) =~= le::le_bytes(order_id.0 as nat, 8));
            assert(r.subrange(9, 17) =~= le::le_bytes(client_order_id.0 as nat, 8));
            assert(r.subrange(18, 26) =~= le::le_bytes((price.0 as u64) as nat, 8));
            assert(r.subrange(26, 34) =~= le::le_bytes(qty.0 as nat, 8));
            le::lemma_written(r, 1, order_id.0 as nat);
            le::lemma_written(r, 9, client_order_id.0 as nat);
            le::lemma_written(r, 18, (price.0 as u64) as nat);
            le::lemma_written(r, 26, qty.0 as nat);
        },
        Event::Filled { fill, .. } => {
            let own = session::is_maker(fill, account);
            let id = if own {
                fill.resting_order_id
            } else {
                fill.aggressor_order_id
            };
            let left = if own {
                fill.resting_remaining_qty
            } else {
                fill.aggressor_remaining_qty
            };
            lemma_twos_complement(fill.price.0, 0);
            assert(r.subrange(1, 9) =~= le::le_bytes(id.0 as nat, 8));
            assert(r.subrange(9, 17) =~= le::le_bytes((fill.price.0 as u64) as nat, 8));
            assert(r.subrange(17, 25) =~= le::le_bytes(fill.qty.0 as nat, 8));
            assert(r.subrange(25, 33) =~= le::le_bytes(left.0 as nat, 8));
            le::lemma_written(r, 1, id.0 as nat);
            le::lemma_written(r, 9, (fill.price.0 as u64) as nat);
            le::lemma_written(r, 17, fill.qty.0 as nat);
            le::lemma_written(r, 25, left.0 as nat);
        },
        Event::Canceled { order_id, remaining_qty, .. } => {
            assert(r.subrange(1, 9) =~= le::le_bytes(order_id.0 as nat, 8));
            assert(r.subrange(10, 18) =~= le::le_bytes(remaining_qty.0 as nat, 8));
            le::lemma_written(r, 1, order_id.0 as nat);
            le::lemma_written(r, 10, remaining_qty.0 as nat);
        },
        Event::Rejected { client_order_id, .. } => {
            assert(r.subrange(1, 9) =~= le::le_bytes(client_order_id.0 as nat, 8));
            le::lemma_written(r, 1, client_order_id.0 as nat);
        },
        Event::Modified { order_id, new_qty, new_price, .. } => {
            let price = match new_price {
                Some(p) => p.0 as u64,
                None => 0,
            };
            if let Some(p) = new_price {
                lemma_twos_complement(p.0, 0);
            }
            assert(r.subrange(1, 9) =~= le::le_bytes(order_id.0 as nat, 8));
            assert(r.subrange(9, 17) =~= le::le_bytes(new_qty.0 as nat, 8));
            assert(r.subrange(18, 26) =~= le::le_bytes(price as nat, 8));
            le::lemma_written(r, 1, order_id.0 as nat);
            le::lemma_written(r, 9, new_qty.0 as nat);
            le::lemma_written(r, 18, price as nat);
        },
        _ => {},
    }
}

/// A best price on the wire: whether there is one, the price and the quantity,
/// both zero if there is none.
pub open spec fn shows_quote(r: Seq<u8>, at: int, quote: Option<(Price, Qty)>) -> bool {
    match quote {
        Some((price, qty)) => r[at] == 1 && stands_for(u64_at(r, at + 1), price) && u64_at(
            r,
            at + 9,
        ) == qty.0,
        None => r[at] == 0 && u64_at(r, at + 1) == 0 && u64_at(r, at + 9) == 0,
    }
}

proof fn lemma_quote(r: Seq<u8>, at: int, quote: Option<(Price, Qty)>)
    requires
        0 <= at <= r.len() - 17,
        r.subrange(at, at + 17) == market_data::quote_bytes(quote),
    ensures
        shows_quote(r, at, quote),
{
    broadcast use le::lemma_le_len_auto;

    let q = market_data::quote_bytes(quote);
    let price = match quote {
        Some((p, _)) => p.0 as u64,
        None => 0,
    };
    let qty = match quote {
        Some((_, q)) => q.0,
        None => 0,
    };
    if let Some((p, _)) = quote {
        lemma_twos_complement(p.0, 0);
    }
    assert(r.subrange(at, at + 17)[0] == r[at]);
    assert(r.subrange(at + 1, at + 9) =~= r.subrange(at, at + 17).subrange(1, 9));
    assert(r.subrange(at + 9, at + 17) =~= r.subrange(at, at + 17).subrange(9, 17));
    assert(q.subrange(1, 9) =~= le::le_bytes(price as nat, 8));
    assert(q.subrange(9, 17) =~= le::le_bytes(qty as nat, 8));
    le::lemma_written(r, at + 1, price as nat);
    le::lemma_written(r, at + 9, qty as nat);
}

/// An update begins with its kind and the instrument. Best prices, trades and
/// halts follow, each value at its place. Its type is 0x83.
pub proof fn law_update_layout(ev: MarketDataEvent)
    ensures
        session::MARKET_DATA == 0x83,
        ({
            let r = market_data::update_payload(ev);
            match ev {
                MarketDataEvent::TopOfBook { instrument_id, best_bid, best_ask } => {
                    &&& r.len() == 43
                    &&& r[0] == 0
                    &&& u64_at(r, 1) == instrument_id.0
                    &&& shows_quote(r, 9, best_bid)
                    &&& shows_quote(r, 26, best_ask)
                    &&& ev.spec_instrument_id() == instrument_id
                },
                MarketDataEvent::Trade { instrument_id, price, qty, aggressor_side } => {
                    &&& r.len() == 26
                    &&& r[0] == 1
                    &&& u64_at(r, 1) == instrument_id.0
                    &&& stands_for(u64_at(r, 9), price)
                    &&& u64_at(r, 17) == qty.0
                    &&& says_side(r[25], aggressor_side)
                    &&& ev.spec_instrument_id() == instrument_id
                },
                MarketDataEvent::HaltStatus { instrument_id, halted } => {
                    &&& r.len() == 10
                    &&& r[0] == 2
                    &&& u64_at(r, 1) == instrument_id.0
                    &&& r[9] == if halted {
                        1int
                    } else {
                        0
                    }
                    &&& ev.spec_instrument_id() == instrument_id
                },
            }
        }),
{
    broadcast use le::lemma_le_len_auto;

    let r = market_data::update_payload(ev);
    let id = ev.spec_instrument_id().0 as nat;
    assert(r.subrange(1, 9) =~= le::le_bytes(id, 8));
    le::lemma_written(r, 1, id);
    match ev {
        MarketDataEvent::TopOfBook { best_bid, best_ask, .. } => {
            assert(r.subrange(9, 26) =~= market_data::quote_bytes(best_bid));
            assert(r.subrange(26, 43) =~= market_data::quote_bytes(best_ask));
            lemma_quote(r, 9, best_bid);
            lemma_quote(r, 26, best_ask);
        },
        MarketDataEvent::Trade { price, qty, .. } => {
            lemma_twos_complement(price.0, 0);
            assert(r.subrange(9, 17) =~= le::le_bytes((price.0 as u64) as nat, 8));
            assert(r.subrange(17, 25) =~= le::le_bytes(qty.0 as nat, 8));
            le::lemma_written(r, 9, (price.0 as u64) as nat);
            le::lemma_written(r, 17, qty.0 as nat);
        },
        _ => {},
    }
}

/// A client names its account in the first frame, whatever its type: a payload
/// of eight bytes with the number. Another length is an error, and so is a bad
/// frame.
pub proof fn law_first_frame_names_the_account(msg_type: u8, p: Seq<u8>, rest: Seq<u8>)
    requires
        p.len() <= 65535,
    ensures
        match server::auth_result(codec::frame_bytes(msg_type, p) + rest) {
            Ok(Some(account)) => p.len() == 8 && account.0 == u64_at(p, 0),
            Ok(None) => false,
            Err(e) => p.len() != 8 && e == AuthError::BadPayload,
        },
        ({
            let len = u32_at(rest, 0);
            let r = server::auth_result(rest);
            &&& rest.len() < 4 || (0 < len <= 65536 && rest.len() < 4 + len) ==> r == Ok::<
                Option<AccountId>,
                AuthError,
            >(None)
            &&& rest.len() >= 4 && len == 0 ==> r == Err::<Option<AccountId>, AuthError>(
                AuthError::Codec(CodecError::FrameTooShort),
            )
            &&& rest.len() >= 4 && len > 65536 ==> r == Err::<Option<AccountId>, AuthError>(
                AuthError::Codec(CodecError::FrameTooLarge(len as u32)),
            )
        }),
{
    let bytes = codec::frame_bytes(msg_type, p) + rest;
    law_frame_layout(msg_type, p);
    law_front_of_the_stream(bytes);
    law_front_of_the_stream(rest);
    assert(u32_at(bytes, 0) == u32_at(codec::frame_bytes(msg_type, p), 0));
    match codec::front_of(bytes) {
        Front::Frame { payload, .. } => {
            assert(payload =~= p) by {
                assert forall|i: int| 0 <= i < p.len() implies payload[i] == p[i] by {
                    assert(codec::frame_bytes(msg_type, p)[5 + i] == p[i]);
                }
            }
            if p.len() == 8 {
                lemma_field(p, 0);
            }
        },
        _ => {},
    }
}

/// An event is told to the owner of the order, and a fill to both sides: first
/// to that of the incoming order. A halt is told to nobody.
pub proof fn law_who_is_told(ev: Event)
    ensures
        ({
            let r = server::event_recipients(ev);
            match ev {
                Event::Accepted { account_id, .. } => r.len() == 1 && r[0] == account_id,
                Event::Canceled { account_id, .. } => r.len() == 1 && r[0] == account_id,
                Event::Rejected { account_id, .. } => r.len() == 1 && r[0] == account_id,
                Event::Modified { account_id, .. } => r.len() == 1 && r[0] == account_id,
                Event::Filled { fill, .. } => r.len() == 2 && r[0] == fill.aggressor_account_id
                    && r[1] == fill.resting_account_id,
                _ => r.len() == 0,
            }
        }),
{
}

} // verus!

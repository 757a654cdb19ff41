//! One client connection: it turns frames into commands, keeps track of the
//! client's subscriptions and order ids, and turns events into frames.
//!
//! All multi-byte integers on the wire are little-endian.

use crate::core_types::commands::{CancelOrder, Command, NewOrder, OrderType, TimeInForce};
use crate::core_types::events::{CancelReason, Event, Fill, RejectReason};
use crate::core_types::ids::{AccountId, ClientOrderId, InstrumentId, OrderId};
use crate::core_types::le;
use crate::core_types::price::Price;
use crate::core_types::qty::Qty;
use crate::core_types::side::Side;
use crate::gateway::buffer;
use crate::gateway::buffer::{bytes_in, has_room};
use crate::gateway::codec;
use crate::gateway::codec::{Codec, CodecError, Frame, Front};
use crate::ring_buffer::spsc::{SpscConsumer, SpscProducer, SpscShared};
use bytes::BytesMut;
use std::collections::{HashMap, HashSet};
use vstd::prelude::*;

verus! {

broadcast use vstd::std_specs::hash::group_hash_axioms;

/// Number of a session in this process.
#[derive(Debug, Clone, Copy, PartialEq, Eq, Hash, PartialOrd, Ord, Structural)]
pub struct SessionId(pub u64);

/// Type of a message with a new order.
pub const NEW_ORDER: u8 = 0x01;

/// Type of a message that cancels an order.
pub const CANCEL_ORDER: u8 = 0x02;

/// Type of a message that subscribes to market data.
pub const SUBSCRIBE_MD: u8 = 0x03;

/// Type of a message that ends such a subscription.
pub const UNSUBSCRIBE_MD: u8 = 0x04;

/// Type of a message that reports what became of an order.
pub const EXEC_REPORT: u8 = 0x81;

/// Type of a message that turns a request down.
pub const REJECT: u8 = 0x82;

/// Type of a message with market data.
pub const MARKET_DATA: u8 = 0x83;

/// Type of a message that reports an error.
pub const ERROR: u8 = 0xFF;

/// Slots of the ring that takes a session's commands.
pub const LANE_CAP: usize = 4096;

/// What went wrong with an inbound message.
#[derive(Debug, Clone, Copy)]
pub enum SessionError {
    Codec(CodecError),
    MalformedPayload { msg_type: u8, reason: &'static str },
    /// The ring for commands is full.
    QueueFull,
}

/// What the connection has to do after an inbound message.
#[derive(Debug)]
pub enum SessionAction {
    /// Send these bytes.
    WriteFrame(BytesMut),
    /// Close the connection.
    Close,
}

/// One client connection.
pub struct Session {
    id: SessionId,
    account_id: AccountId,
    cmd_producer: SpscProducer<Command, LANE_CAP>,
    /// Instruments that the client gets market data of.
    subscriptions: HashSet<u64>,
    /// Order ids by the client's own order ids.
    client_order_map: HashMap<u64, OrderId>,
    codec: Codec,
}

/// A session as a value.
#[verifier::ext_equal]
pub struct SessionModel {
    pub id: SessionId,
    pub account: AccountId,
    pub subscriptions: Set<u64>,
    pub orders: Map<u64, OrderId>,
}

/// What an inbound message leaves behind: the session, the commands in its
/// ring, and an error if there was one.
#[verifier::ext_equal]
pub struct Handled {
    pub session: SessionModel,
    pub queue: Seq<Command>,
    pub error: Option<SessionError>,
}

pub open spec fn malformed(msg_type: u8, reason: &'static str) -> SessionError {
    SessionError::MalformedPayload { msg_type, reason }
}

/// The number at a place of a payload.
pub open spec fn field(payload: Seq<u8>, at: int, n: int) -> u64 {
    le::le_value(payload.subrange(at, at + n)) as u64
}

/// The new order in a payload:
///
/// ```text
/// u64 client_order_id, u64 instrument_id, u8 side (0 buy, 1 sell),
/// u8 order_type (0 limit, 1 market), i64 price, u64 qty,
/// u8 time_in_force (0 GTC, 1 IOC, 2 FOK)
/// ```
pub open spec fn parse_new_order(account_id: AccountId, p: Seq<u8>) -> Result<
    NewOrder,
    SessionError,
> {
    if p.len() != 35 {
        Err(malformed(NEW_ORDER, "unexpected payload length"))
    } else if p[16] > 1 {
        Err(malformed(NEW_ORDER, "invalid side"))
    } else if p[34] > 2 {
        Err(malformed(NEW_ORDER, "invalid time_in_force"))
    } else if p[17] > 1 {
        Err(malformed(NEW_ORDER, "invalid order_type"))
    } else if field(p, 26, 8) == 0 {
        Err(malformed(NEW_ORDER, "qty must be > 0"))
    } else {
        Ok(
            NewOrder {
                account_id,
                instrument_id: InstrumentId(field(p, 8, 8)),
                client_order_id: ClientOrderId(field(p, 0, 8)),
                side: if p[16] == 0 {
                    Side::Buy
                } else {
                    Side::Sell
                },
                price: Price(field(p, 18, 8) as i64),
                order_type: if p[17] == 0 {
                    OrderType::Limit
                } else {
                    OrderType::Market
                },
                qty: Qty(field(p, 26, 8)),
                time_in_force: if p[34] == 0 {
                    TimeInForce::Gtc
                } else if p[34] == 1 {
                    TimeInForce::Ioc
                } else {
                    TimeInForce::Fok
                },
            },
        )
    }
}

/// The cancel request in a payload: `u64 instrument_id, u64 order_id`.
pub open spec fn parse_cancel(account_id: AccountId, p: Seq<u8>) -> Result<
    CancelOrder,
    SessionError,
> {
    if p.len() != 16 {
        Err(malformed(CANCEL_ORDER, "unexpected payload length"))
    } else {
        Ok(
            CancelOrder {
                account_id,
                instrument_id: InstrumentId(field(p, 0, 8)),
                order_id: OrderId(field(p, 8, 8)),
            },
        )
    }
}

/// The instrument in a payload: `u64 instrument_id`.
pub open spec fn parse_instrument(p: Seq<u8>) -> Result<InstrumentId, SessionError> {
    if p.len() != 8 {
        Err(malformed(SUBSCRIBE_MD, "unexpected payload length"))
    } else {
        Ok(InstrumentId(field(p, 0, 8)))
    }
}

impl SessionModel {
    pub open spec fn fails(self, queue: Seq<Command>, error: SessionError) -> Handled {
        Handled { session: self, queue, error: Some(error) }
    }

    /// Puts a command on the ring, if there is room.
    pub open spec fn enqueues(self, queue: Seq<Command>, cmd: Command) -> Handled {
        if queue.len() == LANE_CAP {
            self.fails(queue, SessionError::QueueFull)
        } else {
            Handled { session: self, queue: queue.push(cmd), error: None }
        }
    }

    /// What a message does.
    pub open spec fn handles(self, queue: Seq<Command>, msg_type: u8, p: Seq<u8>) -> Handled {
        if msg_type == NEW_ORDER {
            match parse_new_order(self.account, p) {
                Ok(o) => self.enqueues(queue, Command::New(o)),
                Err(e) => self.fails(queue, e),
            }
        } else if msg_type == CANCEL_ORDER {
            match parse_cancel(self.account, p) {
                Ok(c) => self.enqueues(queue, Command::Cancel(c)),
                Err(e) => self.fails(queue, e),
            }
        } else if msg_type == SUBSCRIBE_MD {
            match parse_instrument(p) {
                Ok(i) => Handled {
                    session: SessionModel {
                        subscriptions: self.subscriptions.insert(i.0),
                        ..self
                    },
                    queue,
                    error: None,
                },
                Err(e) => self.fails(queue, e),
            }
        } else if msg_type == UNSUBSCRIBE_MD {
            match parse_instrument(p) {
                Ok(i) => Handled {
                    session: SessionModel {
                        subscriptions: self.subscriptions.remove(i.0),
                        ..self
                    },
                    queue,
                    error: None,
                },
                Err(e) => self.fails(queue, e),
            }
        } else {
            self.fails(queue, malformed(msg_type, "unknown inbound message type"))
        }
    }
}

fn bad(msg_type: u8, reason: &'static str) -> (e: SessionError)
    ensures
        e == malformed(msg_type, reason),
{
    SessionError::MalformedPayload { msg_type, reason }
}

/// Reads eight bytes of a payload as a number.
fn read_u64(payload: &[u8], at: usize) -> (v: u64)
    requires
        at + 8 <= payload@.len(),
    ensures
        v == field(payload@, at as int, 8),
{
    proof {
        le::law_le_bytes_roundtrip(payload@.subrange(at as int, at + 8));
        le::lemma_le_limits();
    }
    codec::read_le(payload, at, 8)
}

fn decode_new_order(account_id: AccountId, payload: &[u8]) -> (r: Result<NewOrder, SessionError>)
    ensures
        r == parse_new_order(account_id, payload@),
{
    if payload.len() != 35 {
        return Err(bad(NEW_ORDER, "unexpected payload length"));
    }
    let client_order_id = ClientOrderId::new(read_u64(payload, 0));
    let instrument_id = InstrumentId::new(read_u64(payload, 8));
    let side = match payload[16] {
        0 => Side::Buy,
        1 => Side::Sell,
        _ => {
            return Err(bad(NEW_ORDER, "invalid side"));
        },
    };
    let order_type_tag: u8 = payload[17];
    let price_raw: i64 = read_u64(payload, 18) as i64;
    let qty = Qty::new(read_u64(payload, 26));
    let time_in_force = match payload[34] {
        0 => TimeInForce::Gtc,
        1 => TimeInForce::Ioc,
        2 => TimeInForce::Fok,
        _ => {
            return Err(bad(NEW_ORDER, "invalid time_in_force"));
        },
    };
    let price = Price::new(price_raw);
    let order_type = match order_type_tag {
        0 => OrderType::Limit,
        1 => OrderType::Market,
        _ => {
            return Err(bad(NEW_ORDER, "invalid order_type"));
        },
    };
    if qty.is_zero() {
        return Err(bad(NEW_ORDER, "qty must be > 0"));
    }
    Ok(
        NewOrder {
            account_id,
            instrument_id,
            client_order_id,
            side,
            price,
            order_type,
            qty,
            time_in_force,
        },
    )
}

fn decode_cancel_order(account_id: AccountId, payload: &[u8]) -> (r: Result<
    CancelOrder,
    SessionError,
>)
    ensures
        r == parse_cancel(account_id, payload@),
{
    if payload.len() != 16 {
        return Err(bad(CANCEL_ORDER, "unexpected payload length"));
    }
    let instrument_id = InstrumentId::new(read_u64(payload, 0));
    let order_id = OrderId::new(read_u64(payload, 8));
    Ok(CancelOrder { account_id, instrument_id, order_id })
}

fn decode_instrument_id(payload: &[u8]) -> (r: Result<InstrumentId, SessionError>)
    ensures
        r == parse_instrument(payload@),
{
    if payload.len() != 8 {
        return Err(bad(SUBSCRIBE_MD, "unexpected payload length"));
    }
    Ok(InstrumentId::new(read_u64(payload, 0)))
}

impl Session {
    pub closed spec fn view(self) -> SessionModel {
        SessionModel {
            id: self.id,
            account: self.account_id,
            subscriptions: self.subscriptions@,
            orders: self.client_order_map@,
        }
    }

    /// The session sends its commands into this ring.
    pub closed spec fn feeds(self, ring: SpscShared<Command, LANE_CAP>) -> bool {
        self.cmd_producer.feeds(ring)
    }

    pub fn new(
        id: SessionId,
        account_id: AccountId,
        cmd_producer: SpscProducer<Command, LANE_CAP>,
    ) -> (session: Session)
        ensures
            session@ == (SessionModel {
                id,
                account: account_id,
                subscriptions: Set::empty(),
                orders: Map::empty(),
            }),
            forall|ring: SpscShared<Command, LANE_CAP>| #[trigger]
                session.feeds(ring) == cmd_producer.feeds(ring),
    {
        Session {
            id,
            account_id,
            cmd_producer,
            subscriptions: HashSet::new(),
            client_order_map: HashMap::new(),
            codec: Codec,
        }
    }

    pub fn id(&self) -> (r: SessionId)
        ensures
            r == self@.id,
    {
        self.id
    }

    pub fn account_id(&self) -> (r: AccountId)
        ensures
            r == self@.account,
    {
        self.account_id
    }

    /// Whether the client gets market data of the instrument.
    pub fn is_subscribed(&self, instrument_id: InstrumentId) -> (b: bool)
        ensures
            b == self@.subscriptions.contains(instrument_id.0),
    {
        self.subscriptions.contains(&instrument_id.0)
    }

    /// Takes the next frame from `buf`, if one is complete, and does what it
    /// asks for. After an error the connection has to be closed.
    pub fn handle_inbound(
        &mut self,
        buf: &mut BytesMut,
        ring: &mut SpscShared<Command, LANE_CAP>,
    ) -> (r: Result<Option<SessionAction>, SessionError>)
        requires
            old(ring).wf(),
            old(self).feeds(*old(ring)),
        ensures
            final(ring).wf(),
            final(self).feeds(*final(ring)),
            forall|c: SpscConsumer<Command, LANE_CAP>|
                c.drains(*old(ring)) ==> #[trigger] c.drains(*final(ring)),
            match codec::front_of(bytes_in(*old(buf))) {
                Front::Incomplete => {
                    &&& r is Ok && r->Ok_0 is None
                    &&& bytes_in(*final(buf)) == bytes_in(*old(buf))
                    &&& final(self)@ == old(self)@
                    &&& final(ring)@ == old(ring)@
                },
                Front::Malformed(e) => {
                    &&& r == Err::<Option<SessionAction>, SessionError>(SessionError::Codec(e))
                    &&& bytes_in(*final(buf)) == bytes_in(*old(buf))
                    &&& final(self)@ == old(self)@
                    &&& final(ring)@ == old(ring)@
                },
                Front::Frame { msg_type, payload, rest } => {
                    let h = old(self)@.handles(old(ring)@, msg_type, payload);
                    &&& bytes_in(*final(buf)) == rest
                    &&& final(self)@ == h.session
                    &&& final(ring)@ == h.queue
                    &&& h.error is None ==> r is Ok && r->Ok_0 is None
                    &&& h.error matches Some(e) ==> r == Err::<
                        Option<SessionAction>,
                        SessionError,
                    >(e)
                },
            },
    {
        match self.codec.decode(buf) {
            Ok(Some(frame)) => self.dispatch_frame(frame, ring),
            Ok(None) => Ok(None),
            Err(e) => Err(SessionError::Codec(e)),
        }
    }

    fn dispatch_frame(
        &mut self,
        frame: Frame,
        ring: &mut SpscShared<Command, LANE_CAP>,
    ) -> (r: Result<Option<SessionAction>, SessionError>)
        requires
            old(ring).wf(),
            old(self).feeds(*old(ring)),
        ensures
            final(ring).wf(),
            final(self).feeds(*final(ring)),
            forall|c: SpscConsumer<Command, LANE_CAP>|
                c.drains(*old(ring)) ==> #[trigger] c.drains(*final(ring)),
            ({
                let h = old(self)@.handles(old(ring)@, frame.msg_type, bytes_in(frame.payload));
                &&& final(self)@ == h.session
                &&& final(ring)@ == h.queue
                &&& h.error is None ==> r is Ok && r->Ok_0 is None
                &&& h.error matches Some(e) ==> r == Err::<Option<SessionAction>, SessionError>(e)
            }),
    {
        let payload = buffer::buffer_slice(&frame.payload);
        if frame.msg_type == NEW_ORDER {
            match decode_new_order(self.account_id, payload) {
                Ok(order) => self.enqueue(Command::New(order), ring),
                Err(e) => Err(e),
            }
        } else if frame.msg_type == CANCEL_ORDER {
            match decode_cancel_order(self.account_id, payload) {
                Ok(cancel) => self.enqueue(Command::Cancel(cancel), ring),
                Err(e) => Err(e),
            }
        } else if frame.msg_type == SUBSCRIBE_MD {
            match decode_instrument_id(payload) {
                Ok(instrument_id) => {
                    self.subscriptions.insert(instrument_id.0);
                    Ok(None)
                },
                Err(e) => Err(e),
            }
        } else if frame.msg_type == UNSUBSCRIBE_MD {
            match decode_instrument_id(payload) {
                Ok(instrument_id) => {
                    self.subscriptions.remove(&instrument_id.0);
                    Ok(None)
                },
                Err(e) => Err(e),
            }
        } else {
            Err(bad(frame.msg_type, "unknown inbound message type"))
        }
    }

    fn enqueue(&mut self, cmd: Command, ring: &mut SpscShared<Command, LANE_CAP>) -> (r: Result<
        Option<SessionAction>,
        SessionError,
    >)
        requires
            old(ring).wf(),
            old(self).feeds(*old(ring)),
        ensures
            final(ring).wf(),
            final(self).feeds(*final(ring)),
            forall|c: SpscConsumer<Command, LANE_CAP>|
                c.drains(*old(ring)) ==> #[trigger] c.drains(*final(ring)),
            ({
                let h = old(self)@.enqueues(old(ring)@, cmd);
                &&& final(self)@ == h.session
                &&& final(ring)@ == h.queue
                &&& h.error is None ==> r is Ok && r->Ok_0 is None
                &&& h.error matches Some(e) ==> r == Err::<Option<SessionAction>, SessionError>(e)
            }),
    {
        match self.cmd_producer.try_push(ring, cmd) {
            Ok(_) => Ok(None),
            Err(_) => Err(SessionError::QueueFull),
        }
    }

    /// Notes the engine's id of a client's order, once it is accepted.
    pub fn record_order_mapping(&mut self, client_order_id: ClientOrderId, order_id: OrderId)
        ensures
            final(self)@ == (SessionModel {
                orders: old(self)@.orders.insert(client_order_id.0, order_id),
                ..old(self)@
            }),
            forall|ring: SpscShared<Command, LANE_CAP>| #[trigger]
                final(self).feeds(ring) == old(self).feeds(ring),
    {
        self.client_order_map.insert(client_order_id.0, order_id);
    }

    /// The client's own id of an order. Where the client has given one order
    /// several ids, it is one of them.
    pub fn client_order_id_for(&self, order_id: OrderId) -> (r: Option<ClientOrderId>)
        ensures
            match r {
                Some(c) => self@.orders.contains_key(c.0) && self@.orders[c.0] == order_id,
                None => forall|k: u64| #[trigger]
                    self@.orders.contains_key(k) ==> self@.orders[k] != order_id,
            },
    {
        let ghost m = self.client_order_map@;
        for (coid, oid) in it: self.client_order_map.iter()
            invariant
                m == self.client_order_map@,
                forall|i: int| 0 <= i < it.index() ==> *(#[trigger] it.seq()[i]).1 != order_id,
                forall|i: int|
                    0 <= i < it.seq().len() ==> m.contains_key(*(#[trigger] it.seq()[i]).0)
                        && m[*it.seq()[i].0] == *it.seq()[i].1,
                forall|k: u64| #[trigger]
                    m.contains_key(k) ==> it.seq().contains((&k, &m[k])),
        {
            if *oid == order_id {
                return Some(ClientOrderId(*coid));
            }
        }
        None
    }

    /// The event is about an order of the account.
    pub open spec fn concerns(account: AccountId, ev: Event) -> bool {
        match ev {
            Event::Accepted { account_id, .. } => account_id == account,
            Event::Canceled { account_id, .. } => account_id == account,
            Event::Rejected { account_id, .. } => account_id == account,
            Event::Modified { account_id, .. } => account_id == account,
            Event::Filled { fill, .. } => fill.aggressor_account_id == account
                || fill.resting_account_id == account,
            Event::InstrumentHalted { .. } => false,
            Event::InstrumentResumed { .. } => false,
        }
    }

    /// Appends the report of an event to `out`, if the event is about an
    /// order of this session's account; the result says whether it is.
    pub fn encode_event(&self, ev: &Event, out: &mut BytesMut) -> (r: Result<bool, CodecError>)
        requires
            Session::concerns(self@.account, *ev) ==> has_room(*old(out), 39),
        ensures
            r == Ok::<bool, CodecError>(Session::concerns(self@.account, *ev)),
            bytes_in(*final(out)) == if Session::concerns(self@.account, *ev) {
                bytes_in(*old(out)) + codec::frame_bytes(
                    EXEC_REPORT,
                    report_payload(*ev, self@.account),
                )
            } else {
                bytes_in(*old(out))
            },
    {
        let own = match ev {
            Event::Accepted { account_id, .. } => *account_id == self.account_id,
            Event::Canceled { account_id, .. } => *account_id == self.account_id,
            Event::Rejected { account_id, .. } => *account_id == self.account_id,
            Event::Modified { account_id, .. } => *account_id == self.account_id,
            Event::Filled { fill, .. } => fill.aggressor_account_id == self.account_id
                || fill.resting_account_id == self.account_id,
            Event::InstrumentHalted { .. } => false,
            Event::InstrumentResumed { .. } => false,
        };
        if !own {
            return Ok(false);
        }
        match encode_exec_report(ev, self.account_id, &self.codec, out) {
            Ok(_) => Ok(true),
            Err(e) => Err(e),
        }
    }

    /// Handles every complete frame in `buf`, up to the first error. After an
    /// error the connection has to be closed.
    pub fn handle_all(
        &mut self,
        buf: &mut BytesMut,
        ring: &mut SpscShared<Command, LANE_CAP>,
    ) -> (r: Result<(), SessionError>)
        requires
            old(ring).wf(),
            old(self).feeds(*old(ring)),
        ensures
            final(ring).wf(),
            final(self).feeds(*final(ring)),
            forall|c: SpscConsumer<Command, LANE_CAP>|
                c.drains(*old(ring)) ==> #[trigger] c.drains(*final(ring)),
            ({
                let d = handles_all(old(self)@, old(ring)@, bytes_in(*old(buf)));
                &&& final(self)@ == d.0.session
                &&& final(ring)@ == d.0.queue
                &&& bytes_in(*final(buf)) == d.1
                &&& d.0.error is None ==> r is Ok
                &&& d.0.error matches Some(e) ==> r == Err::<(), SessionError>(e)
            }),
    {
        let ghost all = handles_all(self@, ring@, bytes_in(*buf));
        loop
            invariant
                ring.wf(),
                self.feeds(*ring),
                forall|c: SpscConsumer<Command, LANE_CAP>|
                    c.drains(*old(ring)) ==> #[trigger] c.drains(*ring),
                all == handles_all(self@, ring@, bytes_in(*buf)),
                all == handles_all(old(self)@, old(ring)@, bytes_in(*old(buf))),
            decreases bytes_in(*buf).len(),
        {
            let before: usize = buffer::buffer_len(buf);
            match self.handle_inbound(buf, ring) {
                Err(e) => {
                    return Err(e);
                },
                Ok(_) => {
                    let after: usize = buffer::buffer_len(buf);
                    if after == before {
                        return Ok(());
                    }
                },
            }
        }
    }

    /// The instruments that the client has subscribed to and that `forwarded`
    /// does not hold yet, in no particular order. They are added to
    /// `forwarded`.
    pub fn new_subscriptions(&self, forwarded: &mut HashSet<u64>) -> (fresh: Vec<u64>)
        ensures
            final(forwarded)@ == old(forwarded)@.union(self@.subscriptions),
            fresh@.no_duplicates(),
            forall|i: u64| #[trigger]
                fresh@.contains(i) <==> self@.subscriptions.contains(i)
                    && !old(forwarded)@.contains(i),
    {
        let ghost subs = self.subscriptions@;
        let ghost before = forwarded@;
        let mut fresh: Vec<u64> = Vec::new();
        for instrument in it: self.subscriptions.iter()
            invariant
                subs == self.subscriptions@,
                it.seq().unref().to_set() == subs,
                forall|i: u64| before.contains(i) ==> #[trigger] forwarded@.contains(i),
                forall|i: u64| #[trigger]
                    forwarded@.contains(i) ==> before.contains(i) || subs.contains(i),
                forall|i: u64| #[trigger]
                    subs.contains(i) ==> forwarded@.contains(i) || (exists|j: int|
                        it.index() <= j < it.seq().len() && *(#[trigger] it.seq()[j]) == i),
                fresh@.no_duplicates(),
                forall|i: u64| #[trigger]
                    fresh@.contains(i) <==> forwarded@.contains(i) && !before.contains(i),
        {
            let ghost fresh0 = fresh@;
            let ghost known = forwarded@;
            if forwarded.insert(*instrument) {
                fresh.push(*instrument);
                proof {
                    assert(!fresh0.contains(*instrument));
                    assert forall|i: u64| #[trigger] fresh@.contains(i) <==> forwarded@.contains(i)
                        && !before.contains(i) by {
                        if i == *instrument {
                            assert(fresh@[fresh0.len() as int] == i);
                        } else if fresh0.contains(i) {
                            let x = fresh0.index_of(i);
                            assert(fresh@[x] == i);
                        }
                    }
                }
            }
        }
        assert(forwarded@ =~= before.union(subs));
        fresh
    }
}

/// What handling every complete frame leaves behind, and the bytes that are
/// left.
pub open spec fn handles_all(m: SessionModel, queue: Seq<Command>, bytes: Seq<u8>) -> (
    Handled,
    Seq<u8>,
)
    decreases bytes.len(),
{
    match codec::front_of(bytes) {
        Front::Incomplete => (Handled { session: m, queue, error: None }, bytes),
        Front::Malformed(e) => (m.fails(queue, SessionError::Codec(e)), bytes),
        Front::Frame { msg_type, payload, rest } => {
            let h = m.handles(queue, msg_type, payload);
            if h.error is Some {
                (h, rest)
            } else {
                handles_all(h.session, h.queue, rest)
            }
        },
    }
}

/// The number of a cancel reason on the wire.
pub open spec fn cancel_reason_code(r: CancelReason) -> u8 {
    match r {
        CancelReason::UserRequested => 0,
        CancelReason::TimeInForceExpired => 1,
        CancelReason::RiskLimitBreach => 2,
        CancelReason::InstrumentHalted => 3,
    }
}

/// The number of a reject reason on the wire.
pub open spec fn reject_reason_code(r: RejectReason) -> u8 {
    match r {
        RejectReason::RiskLimitBreach => 0,
        RejectReason::InstrumentHalted => 1,
        RejectReason::InvalidPrice => 2,
        RejectReason::InvalidQuantity => 3,
        RejectReason::UnknownInstrument => 4,
        RejectReason::UnknownOrder => 5,
        RejectReason::InvalidQty => 6,
        RejectReason::PriceOutOfRange => 7,
        RejectReason::IocNoMatch => 8,
        RejectReason::ArenaFull => 9,
        RejectReason::OrderNotFound => 10,
        RejectReason::WrongAccount => 11,
        RejectReason::FokNotFullyFillable => 12,
        RejectReason::UnsupportedOrderType => 13,
    }
}

/// The number of a side on the wire.
pub open spec fn side_code(side: Side) -> u8 {
    match side {
        Side::Buy => 0,
        Side::Sell => 1,
    }
}

/// The payload of a report:
///
/// ```text
/// 0 accepted: u64 order_id, u64 client_order_id, u8 side, i64 price, u64 qty
/// 1 filled:   u64 order_id, i64 price, u64 qty, u64 remaining_qty, u8 is_aggressor
/// 2 canceled: u64 order_id, u8 reason, u64 remaining_qty
/// 3 rejected: u64 client_order_id, u8 reason
/// 4 modified: u64 order_id, u64 new_qty, u8 has_new_price, i64 new_price
/// ```
///
/// A fill is reported to `account` from its own side: from that of the resting
/// order if the resting order alone is its own, else from that of the incoming
/// order.
pub open spec fn report_payload(ev: Event, account: AccountId) -> Seq<u8> {
    match ev {
        Event::Accepted { order_id, client_order_id, side, price, qty, .. } => {
            seq![0u8] + le::le_bytes(order_id.0 as nat, 8) + le::le_bytes(
                client_order_id.0 as nat,
                8,
            ) + seq![side_code(side)] + le::le_bytes((price.0 as u64) as nat, 8) + le::le_bytes(
                qty.0 as nat,
                8,
            )
        },
        Event::Filled { fill, .. } => if is_maker(fill, account) {
            seq![1u8] + le::le_bytes(fill.resting_order_id.0 as nat, 8) + le::le_bytes(
                (fill.price.0 as u64) as nat,
                8,
            ) + le::le_bytes(fill.qty.0 as nat, 8) + le::le_bytes(
                fill.resting_remaining_qty.0 as nat,
                8,
            ) + seq![0u8]
        } else {
            seq![1u8] + le::le_bytes(fill.aggressor_order_id.0 as nat, 8) + le::le_bytes(
                (fill.price.0 as u64) as nat,
                8,
            ) + le::le_bytes(fill.qty.0 as nat, 8) + le::le_bytes(
                fill.aggressor_remaining_qty.0 as nat,
                8,
            ) + seq![1u8]
        },
        Event::Canceled { order_id, reason, remaining_qty, .. } => {
            seq![2u8] + le::le_bytes(order_id.0 as nat, 8) + seq![cancel_reason_code(reason)]
                + le::le_bytes(remaining_qty.0 as nat, 8)
        },
        Event::Rejected { client_order_id, reason, .. } => {
            seq![3u8] + le::le_bytes(client_order_id.0 as nat, 8)
                + seq![reject_reason_code(reason)]
        },
        Event::Modified { order_id, new_qty, new_price, .. } => {
            seq![4u8] + le::le_bytes(order_id.0 as nat, 8) + le::le_bytes(new_qty.0 as nat, 8) + (
            match new_price {
                Some(p) => seq![1u8] + le::le_bytes((p.0 as u64) as nat, 8),
                None => seq![0u8] + le::le_bytes(0, 8),
            })
        },
        Event::InstrumentHalted { .. } => Seq::empty(),
        Event::InstrumentResumed { .. } => Seq::empty(),
    }
}

/// Of the two orders of a fill, only the resting one belongs to the account.
pub open spec fn is_maker(fill: Fill, account: AccountId) -> bool {
    fill.aggressor_account_id != account && fill.resting_account_id == account
}

/// The event is one that is reported to a client.
pub open spec fn reportable(ev: Event) -> bool {
    !(ev is InstrumentHalted) && !(ev is InstrumentResumed)
}

fn side_tag(side: Side) -> (r: u8)
    ensures
        r == side_code(side),
{
    if side.is_buy() {
        0
    } else {
        1
    }
}

fn cancel_reason_tag(r: CancelReason) -> (tag: u8)
    ensures
        tag == cancel_reason_code(r),
{
    match r {
        CancelReason::UserRequested => 0,
        CancelReason::TimeInForceExpired => 1,
        CancelReason::RiskLimitBreach => 2,
        CancelReason::InstrumentHalted => 3,
    }
}

fn reject_reason_tag(r: RejectReason) -> (tag: u8)
    ensures
        tag == reject_reason_code(r),
{
    match r {
        RejectReason::RiskLimitBreach => 0,
        RejectReason::InstrumentHalted => 1,
        RejectReason::InvalidPrice => 2,
        RejectReason::InvalidQuantity => 3,
        RejectReason::UnknownInstrument => 4,
        RejectReason::UnknownOrder => 5,
        RejectReason::InvalidQty => 6,
        RejectReason::PriceOutOfRange => 7,
        RejectReason::IocNoMatch => 8,
        RejectReason::ArenaFull => 9,
        RejectReason::OrderNotFound => 10,
        RejectReason::WrongAccount => 11,
        RejectReason::FokNotFullyFillable => 12,
        RejectReason::UnsupportedOrderType => 13,
    }
}

/// Appends the report of an event to `account` to `out`. Events about an
/// instrument as a whole are not reported.
fn encode_exec_report(
    ev: &Event,
    account: AccountId,
    codec: &Codec,
    out: &mut BytesMut,
) -> (r: Result<(), CodecError>)
    requires
        has_room(*old(out), 39),
    ensures
        r is Ok,
        bytes_in(*final(out)) == if reportable(*ev) {
            bytes_in(*old(out)) + codec::frame_bytes(EXEC_REPORT, report_payload(*ev, account))
        } else {
            bytes_in(*old(out))
        },
{
    broadcast use le::lemma_le_len_auto;

    let mut payload = buffer::new_buffer();
    match ev {
        Event::Accepted { order_id, client_order_id, side, price, qty, .. } => {
            buffer::put_u8(&mut payload, 0);
            buffer::put_u64_le(&mut payload, order_id.get());
            buffer::put_u64_le(&mut payload, client_order_id.get());
            buffer::put_u8(&mut payload, side_tag(*side));
            buffer::put_i64_le(&mut payload, price.ticks());
            buffer::put_u64_le(&mut payload, qty.lots());
        },
        Event::Filled { fill, .. } => {
            let maker: bool = fill.aggressor_account_id != account && fill.resting_account_id
                == account;
            buffer::put_u8(&mut payload, 1);
            if maker {
                buffer::put_u64_le(&mut payload, fill.resting_order_id.get());
            } else {
                buffer::put_u64_le(&mut payload, fill.aggressor_order_id.get());
            }
            buffer::put_i64_le(&mut payload, fill.price.ticks());
            buffer::put_u64_le(&mut payload, fill.qty.lots());
            if maker {
                buffer::put_u64_le(&mut payload, fill.resting_remaining_qty.lots());
                buffer::put_u8(&mut payload, 0);
            } else {
                buffer::put_u64_le(&mut payload, fill.aggressor_remaining_qty.lots());
                buffer::put_u8(&mut payload, 1);
            }
        },
        Event::Canceled { order_id, reason, remaining_qty, .. } => {
            buffer::put_u8(&mut payload, 2);
            buffer::put_u64_le(&mut payload, order_id.get());
            buffer::put_u8(&mut payload, cancel_reason_tag(*reason));
            buffer::put_u64_le(&mut payload, remaining_qty.lots());
        },
        Event::Rejected { client_order_id, reason, .. } => {
            buffer::put_u8(&mut payload, 3);
            buffer::put_u64_le(&mut payload, client_order_id.get());
            buffer::put_u8(&mut payload, reject_reason_tag(*reason));
        },
        Event::Modified { order_id, new_qty, new_price, .. } => {
            buffer::put_u8(&mut payload, 4);
            buffer::put_u64_le(&mut payload, order_id.get());
            buffer::put_u64_le(&mut payload, new_qty.lots());
            match new_price {
                Some(p) => {
                    buffer::put_u8(&mut payload, 1);
                    buffer::put_i64_le(&mut payload, p.ticks());
                },
                None => {
                    buffer::put_u8(&mut payload, 0);
                    buffer::put_i64_le(&mut payload, 0);
                },
            }
        },
        Event::InstrumentHalted { .. } => {
            return Ok(());
        },
        Event::InstrumentResumed { .. } => {
            return Ok(());
        },
    }
    assert(bytes_in(payload) =~= report_payload(*ev, account));
    codec.encode(EXEC_REPORT, buffer::buffer_slice(&payload), out)
}

/// Different reasons have different numbers on the wire.
pub proof fn law_reason_codes_are_distinct(
    a: RejectReason,
    b: RejectReason,
    c: CancelReason,
    d: CancelReason,
)
    ensures
        reject_reason_code(a) == reject_reason_code(b) ==> a == b,
        cancel_reason_code(c) == cancel_reason_code(d) ==> c == d,
{
}

/// The payload with which a client sends an order.
pub open spec fn new_order_payload(o: NewOrder) -> Seq<u8> {
    le::le_bytes(o.client_order_id.0 as nat, 8) + le::le_bytes(o.instrument_id.0 as nat, 8)
        + seq![
        side_code(o.side),
        match o.order_type {
            OrderType::Limit => 0u8,
            OrderType::Market => 1u8,
        },
    ] + le::le_bytes((o.price.0 as u64) as nat, 8) + le::le_bytes(o.qty.0 as nat, 8) + seq![
        match o.time_in_force {
            TimeInForce::Gtc => 0u8,
            TimeInForce::Ioc => 1u8,
            TimeInForce::Fok => 2u8,
        },
    ]
}

/// An order arrives as it was sent: what the client wrote into the payload is
/// what the command holds, under the account of the session.
pub proof fn law_new_order_roundtrip(o: NewOrder)
    requires
        o.qty.0 > 0,
    ensures
        parse_new_order(o.account_id, new_order_payload(o)) == Ok::<NewOrder, SessionError>(o),
{
    let p = new_order_payload(o);
    le::lemma_le_limits();
    le::law_le_roundtrip(o.client_order_id.0 as nat, 8);
    le::law_le_roundtrip(o.instrument_id.0 as nat, 8);
    le::law_le_roundtrip((o.price.0 as u64) as nat, 8);
    le::law_le_roundtrip(o.qty.0 as nat, 8);
    assert(p.len() == 35);
    assert(p.subrange(0, 8) =~= le::le_bytes(o.client_order_id.0 as nat, 8));
    assert(p.subrange(8, 16) =~= le::le_bytes(o.instrument_id.0 as nat, 8));
    assert(p.subrange(18, 26) =~= le::le_bytes((o.price.0 as u64) as nat, 8));
    assert(p.subrange(26, 34) =~= le::le_bytes(o.qty.0 as nat, 8));
    let price = o.price.0;
    assert((price as u64) as i64 == price) by (bit_vector);
}

} // verus!

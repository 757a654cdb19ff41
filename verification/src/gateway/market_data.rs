//! Market data: what is published, and who has subscribed to it.

use crate::core_types::ids::InstrumentId;
use crate::core_types::le;
use crate::core_types::price::Price;
use crate::core_types::qty::Qty;
use crate::core_types::side::Side;
use crate::gateway::buffer;
use crate::gateway::buffer::{bytes_in, has_room};
use crate::gateway::codec;
use crate::gateway::codec::{Codec, CodecError};
use crate::gateway::session;
use crate::gateway::session::SessionId;
use bytes::BytesMut;
use std::collections::HashMap;
use vstd::prelude::*;

verus! {

broadcast use vstd::std_specs::hash::group_hash_axioms;

/// Updates that a subscriber may be behind before it misses some.
pub const CHANNEL_CAPACITY: usize = 1024;

/// An update about one instrument.
#[derive(Debug, Clone, Copy, PartialEq, Eq)]
pub enum MarketDataEvent {
    /// The best prices have changed.
    TopOfBook {
        instrument_id: InstrumentId,
        best_bid: Option<(Price, Qty)>,
        best_ask: Option<(Price, Qty)>,
    },
    /// A trade was made.
    Trade { instrument_id: InstrumentId, price: Price, qty: Qty, aggressor_side: Side },
    /// Trading was stopped or started again.
    HaltStatus { instrument_id: InstrumentId, halted: bool },
}

impl MarketDataEvent {
    /// The instrument, as a model function.
    pub open spec fn spec_instrument_id(self) -> InstrumentId {
        match self {
            MarketDataEvent::TopOfBook { instrument_id, .. } => instrument_id,
            MarketDataEvent::Trade { instrument_id, .. } => instrument_id,
            MarketDataEvent::HaltStatus { instrument_id, .. } => instrument_id,
        }
    }

    /// The instrument that the update is about.
    pub fn instrument_id(&self) -> (r: InstrumentId)
        ensures
            r == self.spec_instrument_id(),
    {
        match self {
            MarketDataEvent::TopOfBook { instrument_id, .. } => *instrument_id,
            MarketDataEvent::Trade { instrument_id, .. } => *instrument_id,
            MarketDataEvent::HaltStatus { instrument_id, .. } => *instrument_id,
        }
    }
}

/// The bytes of a best price: a flag, the price and the quantity.
pub open spec fn quote_bytes(quote: Option<(Price, Qty)>) -> Seq<u8> {
    match quote {
        Some((p, q)) => seq![1u8] + le::le_bytes((p.0 as u64) as nat, 8) + le::le_bytes(
            q.0 as nat,
            8,
        ),
        None => seq![0u8] + le::le_bytes(0, 8) + le::le_bytes(0, 8),
    }
}

/// The payload of an update:
///
/// ```text
/// 0 top of book: u64 instrument_id, u8 has_bid, i64 bid_price, u64 bid_qty,
///                u8 has_ask, i64 ask_price, u64 ask_qty
/// 1 trade:       u64 instrument_id, i64 price, u64 qty, u8 aggressor_side
/// 2 halt status: u64 instrument_id, u8 halted
/// ```
pub open spec fn update_payload(ev: MarketDataEvent) -> Seq<u8> {
    match ev {
        MarketDataEvent::TopOfBook { instrument_id, best_bid, best_ask } => {
            seq![0u8] + le::le_bytes(instrument_id.0 as nat, 8) + quote_bytes(best_bid)
                + quote_bytes(best_ask)
        },
        MarketDataEvent::Trade { instrument_id, price, qty, aggressor_side } => {
            seq![1u8] + le::le_bytes(instrument_id.0 as nat, 8) + le::le_bytes(
                (price.0 as u64) as nat,
                8,
            ) + le::le_bytes(qty.0 as nat, 8) + seq![session::side_code(aggressor_side)]
        },
        MarketDataEvent::HaltStatus { instrument_id, halted } => {
            seq![2u8] + le::le_bytes(instrument_id.0 as nat, 8) + seq![
                if halted {
                    1u8
                } else {
                    0u8
                },
            ]
        },
    }
}

fn put_quote(payload: &mut BytesMut, quote: &Option<(Price, Qty)>)
    requires
        has_room(*old(payload), 17),
    ensures
        bytes_in(*final(payload)) == bytes_in(*old(payload)) + quote_bytes(*quote),
        bytes_in(*final(payload)).len() == bytes_in(*old(payload)).len() + 17,
{
    broadcast use le::lemma_le_len_auto;

    match quote {
        Some((p, q)) => {
            buffer::put_u8(payload, 1);
            buffer::put_i64_le(payload, p.ticks());
            buffer::put_u64_le(payload, q.lots());
        },
        None => {
            buffer::put_u8(payload, 0);
            buffer::put_i64_le(payload, 0);
            buffer::put_u64_le(payload, 0);
        },
    }
    assert(bytes_in(*payload) =~= bytes_in(*old(payload)) + quote_bytes(*quote));
}

/// Appends an update to `out`.
pub fn encode_market_data(codec: &Codec, ev: &MarketDataEvent, out: &mut BytesMut) -> (r: Result<
    (),
    CodecError,
>)
    requires
        has_room(*old(out), 48),
    ensures
        r is Ok,
        bytes_in(*final(out)) == bytes_in(*old(out)) + codec::frame_bytes(
            session::MARKET_DATA,
            update_payload(*ev),
        ),
{
    broadcast use le::lemma_le_len_auto;

    let mut payload = buffer::new_buffer();
    match ev {
        MarketDataEvent::TopOfBook { instrument_id, best_bid, best_ask } => {
            buffer::put_u8(&mut payload, 0);
            buffer::put_u64_le(&mut payload, instrument_id.get());
            put_quote(&mut payload, best_bid);
            put_quote(&mut payload, best_ask);
        },
        MarketDataEvent::Trade { instrument_id, price, qty, aggressor_side } => {
            buffer::put_u8(&mut payload, 1);
            buffer::put_u64_le(&mut payload, instrument_id.get());
            buffer::put_i64_le(&mut payload, price.ticks());
            buffer::put_u64_le(&mut payload, qty.lots());
            buffer::put_u8(
                &mut payload,
                if aggressor_side.is_buy() {
                    0
                } else {
                    1
                },
            );
        },
        MarketDataEvent::HaltStatus { instrument_id, halted } => {
            buffer::put_u8(&mut payload, 2);
            buffer::put_u64_le(&mut payload, instrument_id.get());
            buffer::put_u8(
                &mut payload,
                if *halted {
                    1
                } else {
                    0
                },
            );
        },
    }
    assert(bytes_in(payload) =~= update_payload(*ev));
    codec.encode(session::MARKET_DATA, buffer::buffer_slice(&payload), out)
}

/// Which sessions have subscribed to which instruments.
pub struct SubscriptionRegistry {
    by_instrument: HashMap<u64, Vec<SessionId>>,
}

/// The list without a session.
pub open spec fn without(list: Seq<SessionId>, session_id: SessionId) -> Seq<SessionId>
    decreases list.len(),
{
    if list.len() == 0 {
        list
    } else if list.last() == session_id {
        without(list.drop_last(), session_id)
    } else {
        without(list.drop_last(), session_id).push(list.last())
    }
}

/// The list with a session, which stands in it once.
pub open spec fn joined(list: Seq<SessionId>, session_id: SessionId) -> Seq<SessionId> {
    if list.contains(session_id) {
        list
    } else {
        list.push(session_id)
    }
}

impl Default for SubscriptionRegistry {
    fn default() -> (r: SubscriptionRegistry)
        ensures
            r.wf(),
            forall|i: u64| #[trigger] r.subscribers(i) == Seq::<SessionId>::empty(),
    {
        SubscriptionRegistry { by_instrument: HashMap::new() }
    }
}

impl SubscriptionRegistry {
    /// The sessions that have subscribed to an instrument, in the order in
    /// which they did.
    pub closed spec fn subscribers(self, instrument: u64) -> Seq<SessionId> {
        if self.by_instrument@.contains_key(instrument) {
            self.by_instrument@[instrument]@
        } else {
            Seq::empty()
        }
    }

    /// No session is listed twice, and no empty list is kept.
    pub closed spec fn wf(self) -> bool {
        forall|i: u64| #[trigger]
            self.by_instrument@.contains_key(i) ==> {
                &&& self.by_instrument@[i]@.len() > 0
                &&& self.by_instrument@[i]@.no_duplicates()
            }
    }

    /// A session counts at most once per instrument.
    pub proof fn law_no_session_twice(self, instrument: u64)
        requires
            self.wf(),
        ensures
            self.subscribers(instrument).no_duplicates(),
    {
    }

    /// Notes a subscription. A second one of the same session changes
    /// nothing.
    pub fn add(&mut self, instrument_id: InstrumentId, session_id: SessionId)
        requires
            old(self).wf(),
        ensures
            final(self).wf(),
            final(self).subscribers(instrument_id.0) == joined(
                old(self).subscribers(instrument_id.0),
                session_id,
            ),
            final(self).subscribers(instrument_id.0) == if old(self).subscribers(
                instrument_id.0,
            ).contains(session_id) {
                old(self).subscribers(instrument_id.0)
            } else {
                old(self).subscribers(instrument_id.0).push(session_id)
            },
            forall|i: u64|
                i != instrument_id.0 ==> #[trigger] final(self).subscribers(i)
                    == old(self).subscribers(i),
    {
        let mut list = match self.by_instrument.remove(&instrument_id.0) {
            Some(v) => v,
            None => Vec::new(),
        };
        if !is_listed(&list, session_id) {
            list.push(session_id);
        }
        self.by_instrument.insert(instrument_id.0, list);
    }

    /// Ends a subscription.
    pub fn remove(&mut self, instrument_id: InstrumentId, session_id: SessionId)
        requires
            old(self).wf(),
        ensures
            final(self).wf(),
            final(self).subscribers(instrument_id.0) == without(
                old(self).subscribers(instrument_id.0),
                session_id,
            ),
            forall|i: u64|
                i != instrument_id.0 ==> #[trigger] final(self).subscribers(i)
                    == old(self).subscribers(i),
    {
        if let Some(list) = self.by_instrument.remove(&instrument_id.0) {
            let left = retain_others(&list, session_id);
            if left.len() > 0 {
                self.by_instrument.insert(instrument_id.0, left);
            }
        }
    }

    /// Number of sessions that have subscribed to an instrument.
    pub fn subscriber_count(&self, instrument_id: InstrumentId) -> (n: usize)
        ensures
            n == self.subscribers(instrument_id.0).len(),
    {
        match self.by_instrument.get(&instrument_id.0) {
            Some(list) => list.len(),
            None => 0,
        }
    }
}

/// Whether the session is in the list.
fn is_listed(list: &Vec<SessionId>, session_id: SessionId) -> (b: bool)
    ensures
        b == list@.contains(session_id),
{
    let mut i: usize = 0;
    while i < list.len()
        invariant
            i <= list@.len(),
            forall|j: int| 0 <= j < i ==> list@[j] != session_id,
        decreases list@.len() - i,
    {
        if list[i] == session_id {
            return true;
        }
        i += 1;
    }
    false
}

/// The list without the session.
fn retain_others(list: &Vec<SessionId>, session_id: SessionId) -> (out: Vec<SessionId>)
    requires
        list@.no_duplicates(),
    ensures
        out@ == without(list@, session_id),
        out@.no_duplicates(),
{
    let mut out: Vec<SessionId> = Vec::new();
    let mut i: usize = 0;
    assert(list@.take(0) =~= Seq::<SessionId>::empty());
    while i < list.len()
        invariant
            i <= list@.len(),
            list@.no_duplicates(),
            out@ == without(list@.take(i as int), session_id),
            out@.no_duplicates(),
            forall|s: SessionId| #[trigger]
                out@.contains(s) ==> exists|j: int| 0 <= j < i && #[trigger] list@[j] == s,
        decreases list@.len() - i,
    {
        let ghost before = out@;
        let ghost k = i as int;
        proof {
            assert(list@.take(k + 1).drop_last() =~= list@.take(k));
            assert(list@.take(k + 1).last() == list@[k]);
        }
        if list[i] != session_id {
            out.push(list[i]);
            proof {
                assert(!before.contains(list@[k]));
                assert forall|s: SessionId| #[trigger] out@.contains(s) implies exists|j: int|
                    0 <= j < k + 1 && #[trigger] list@[j] == s by {
                    let x = out@.index_of(s);
                    if x < before.len() {
                        assert(before[x] == s);
                        assert(before.contains(s));
                    } else {
                        assert(list@[k] == s);
                    }
                }
            }
        }
        i += 1;
    }
    assert(list@.take(i as int) =~= list@);
    out
}

/// The channels that market data goes out on, one per instrument. A channel
/// is made when somebody first subscribes to its instrument. What a channel is
/// does not matter here.
pub struct MarketDataHub<C> {
    channels: HashMap<u64, C>,
}

impl<C> MarketDataHub<C> {
    /// The channels by instrument.
    pub closed spec fn view(self) -> Map<u64, C> {
        self.channels@
    }

    pub fn new() -> (hub: MarketDataHub<C>)
        ensures
            hub@ == Map::<u64, C>::empty(),
    {
        MarketDataHub { channels: HashMap::new() }
    }

    /// The channel that an update has to be sent on. There is none if nobody
    /// has subscribed to its instrument; the update is dropped then.
    pub fn publish(&self, event: &MarketDataEvent) -> (channel: Option<&C>)
        ensures
            channel is Some <==> self@.contains_key(event.spec_instrument_id().0),
            channel matches Some(c) ==> *c == self@[event.spec_instrument_id().0],
    {
        self.channels.get(&event.instrument_id().0)
    }

    /// The channel of an instrument, if there is one.
    pub fn channel(&self, instrument_id: InstrumentId) -> (channel: Option<&C>)
        ensures
            channel is Some <==> self@.contains_key(instrument_id.0),
            channel matches Some(c) ==> *c == self@[instrument_id.0],
    {
        self.channels.get(&instrument_id.0)
    }

    /// Makes sure that an instrument has a channel. The one that it has stays;
    /// only if there is none `fresh` becomes its channel.
    pub fn subscribe(&mut self, instrument_id: InstrumentId, fresh: C)
        ensures
            final(self)@ == if old(self)@.contains_key(instrument_id.0) {
                old(self)@
            } else {
                old(self)@.insert(instrument_id.0, fresh)
            },
    {
        if !self.channels.contains_key(&instrument_id.0) {
            self.channels.insert(instrument_id.0, fresh);
        }
    }

    /// Number of instruments with a channel.
    pub fn active_instrument_count(&self) -> (n: usize)
        ensures
            n == self@.len(),
    {
        self.channels.len()
    }
}

/// Taking a session out of a list leaves the others, in their order: the
/// parts of a list can be dealt with one by one, and of a single entry either
/// nothing is left or the entry.
pub proof fn law_others_stay_in_order(a: Seq<SessionId>, b: Seq<SessionId>, id: SessionId)
    ensures
        without(a + b, id) == without(a, id) + without(b, id),
        a.len() == 0 ==> without(a, id).len() == 0,
        a.len() == 1 && a[0].0 == id.0 ==> without(a, id).len() == 0,
        a.len() == 1 && a[0].0 != id.0 ==> without(a, id) == a,
    decreases b.len(),
{
    reveal_with_fuel(without, 2);
    if b.len() == 0 {
        assert(a + b =~= a);
        assert(without(a, id) + without(b, id) =~= without(a, id));
    } else {
        law_others_stay_in_order(a, b.drop_last(), id);
        assert((a + b).drop_last() =~= a + b.drop_last());
        assert(without(a + b, id) =~= without(a, id) + without(b, id));
    }
    if a.len() == 1 && a[0].0 != id.0 {
        assert(without(a, id) =~= a);
    }
}

/// A session that subscribes is listed behind the others, or stays where it is
/// if it has subscribed before. A session that ends its subscription right
/// after its first one leaves the list as it was.
pub proof fn law_subscribing_and_ending(list: Seq<SessionId>, id: SessionId)
    ensures
        joined(list, id).contains(id),
        joined(list, id).take(list.len() as int) == list,
        list.contains(id) ==> joined(list, id) == list,
        !list.contains(id) ==> joined(list, id).len() == list.len() + 1,
        !list.contains(id) ==> without(joined(list, id), id) == list,
        !without(list, id).contains(id),
    decreases list.len(),
{
    let later = joined(list, id);
    assert(later.take(list.len() as int) =~= list);
    if !list.contains(id) {
        assert(later[list.len() as int] == id);
        assert(later.drop_last() =~= list);
        lemma_nobody_leaves(list, id);
    }
    if list.len() > 0 {
        law_subscribing_and_ending(list.drop_last(), id);
        let rest = without(list.drop_last(), id);
        if without(list, id).contains(id) {
            let i = without(list, id).index_of(id);
            assert(i < rest.len());
            assert(rest[i] == id);
        }
    }
}

proof fn lemma_nobody_leaves(list: Seq<SessionId>, id: SessionId)
    requires
        !list.contains(id),
    ensures
        without(list, id) == list,
    decreases list.len(),
{
    if list.len() > 0 {
        let front = list.drop_last();
        assert(list[list.len() - 1] != id);
        assert(!front.contains(id)) by {
            if front.contains(id) {
                assert(list[front.index_of(id)] == id);
            }
        }
        lemma_nobody_leaves(front, id);
        assert(front.push(list.last()) =~= list);
    }
}

} // verus!

//! The course of one connection, apart from reading and writing the socket.
//!
//! The first frame names the account. From then on the frames are messages of
//! the account's session, until one of them is wrong or the client leaves.

use crate::core_types::commands::Command;
use crate::core_types::ids::AccountId;
use crate::core_types::le;
use crate::gateway::buffer::bytes_in;
use crate::gateway::codec;
use crate::gateway::codec::Front;
use crate::gateway::server;
use crate::gateway::server::AuthError;
use crate::gateway::session;
use crate::gateway::session::{Session, SessionError, SessionId, SessionModel, LANE_CAP};
use crate::gateway::wire;
use crate::ring_buffer::spsc::{SpscConsumer, SpscProducer, SpscShared};
use bytes::BytesMut;
use std::collections::HashSet;
use vstd::prelude::*;

verus! {

broadcast use vstd::std_specs::hash::group_hash_axioms;

/// Why a connection has to be closed.
#[derive(Debug, Clone, Copy)]
pub enum ConnectionError {
    Auth(AuthError),
    Session(SessionError),
    /// The client left before it said who it is.
    ClosedDuringAuth,
}

/// A connection.
pub struct Connection {
    id: SessionId,
    /// The way to the sequencer, until the session takes it over.
    lane: Option<SpscProducer<Command, LANE_CAP>>,
    session: Option<Session>,
    /// Instruments whose market data is forwarded already.
    forwarded: HashSet<u64>,
}

/// A connection as a value. There is a session once the account is known.
#[verifier::ext_equal]
pub struct ConnectionModel {
    pub id: SessionId,
    pub session: Option<SessionModel>,
    pub forwarded: Set<u64>,
}

/// A session at its beginning.
pub open spec fn fresh_session(id: SessionId, account: AccountId) -> SessionModel {
    SessionModel { id, account, subscriptions: Set::empty(), orders: Map::empty() }
}

/// The bytes behind the first frame.
pub open spec fn behind_frame(bytes: Seq<u8>) -> Seq<u8> {
    match codec::front_of(bytes) {
        Front::Frame { rest, .. } => rest,
        _ => bytes,
    }
}

/// The list holds exactly the new instruments, each once.
pub open spec fn lists_new(fresh: Seq<u64>, subscribed: Set<u64>, known: Set<u64>) -> bool {
    &&& fresh.no_duplicates()
    &&& forall|i: u64| #[trigger]
        fresh.contains(i) <==> subscribed.contains(i) && !known.contains(i)
}

/// What a session `m` does with the bytes: the connection, the commands and
/// the bytes `left` afterwards, and what the connection has to do.
pub open spec fn talks(
    before: ConnectionModel,
    m: SessionModel,
    queue: Seq<Command>,
    bytes: Seq<u8>,
    after: ConnectionModel,
    later: Seq<Command>,
    left: Seq<u8>,
    r: Result<Vec<u64>, ConnectionError>,
) -> bool {
    let d = session::handles_all(m, queue, bytes);
    &&& after.id == before.id
    &&& after.session == Some(d.0.session)
    &&& later == d.0.queue
    &&& left == d.1
    &&& match d.0.error {
        Some(e) => {
            &&& r == Err::<Vec<u64>, ConnectionError>(ConnectionError::Session(e))
            &&& after.forwarded == before.forwarded
        },
        None => {
            &&& r is Ok
            &&& lists_new(r->Ok_0@, d.0.session.subscriptions, before.forwarded)
            &&& after.forwarded == before.forwarded.union(d.0.session.subscriptions)
        },
    }
}

impl Connection {
    pub closed spec fn view(self) -> ConnectionModel {
        ConnectionModel {
            id: self.id,
            session: match self.session {
                Some(s) => Some(s@),
                None => None,
            },
            forwarded: self.forwarded@,
        }
    }

    /// The connection sends its commands into this ring.
    pub closed spec fn feeds(self, ring: SpscShared<Command, LANE_CAP>) -> bool {
        match (self.session, self.lane) {
            (Some(s), None) => s.feeds(ring),
            (None, Some(lane)) => lane.feeds(ring),
            _ => false,
        }
    }

    /// A new connection, whose commands go out on a lane.
    pub fn new(id: SessionId, lane: SpscProducer<Command, LANE_CAP>) -> (c: Connection)
        ensures
            c@ == (ConnectionModel { id, session: None, forwarded: Set::empty() }),
            forall|ring: SpscShared<Command, LANE_CAP>| #[trigger]
                c.feeds(ring) == lane.feeds(ring),
    {
        Connection { id, lane: Some(lane), session: None, forwarded: HashSet::new() }
    }

    /// The session, once the account is known.
    pub fn session(&self) -> (s: Option<&Session>)
        ensures
            s is Some <==> self@.session is Some,
            s matches Some(s) ==> self@.session == Some(s@),
    {
        self.session.as_ref()
    }

    /// Deals with the bytes in `buf`. After success the instruments in the
    /// result have to be subscribed to, and more bytes are awaited; after an
    /// error the connection has to be closed.
    pub fn on_bytes(
        &mut self,
        buf: &mut BytesMut,
        ring: &mut SpscShared<Command, LANE_CAP>,
    ) -> (r: Result<Vec<u64>, ConnectionError>)
        requires
            old(ring).wf(),
            old(self).feeds(*old(ring)),
        ensures
            final(ring).wf(),
            final(self).feeds(*final(ring)),
            forall|c: SpscConsumer<Command, LANE_CAP>|
                c.drains(*old(ring)) ==> #[trigger] c.drains(*final(ring)),
            match old(self)@.session {
                Some(m) => talks(
                    old(self)@,
                    m,
                    old(ring)@,
                    bytes_in(*old(buf)),
                    final(self)@,
                    final(ring)@,
                    bytes_in(*final(buf)),
                    r,
                ),
                None => match server::auth_result(bytes_in(*old(buf))) {
                    Ok(Some(account)) => talks(
                        old(self)@,
                        fresh_session(old(self)@.id, account),
                        old(ring)@,
                        behind_frame(bytes_in(*old(buf))),
                        final(self)@,
                        final(ring)@,
                        bytes_in(*final(buf)),
                        r,
                    ),
                    Ok(None) => {
                        &&& r is Ok && r->Ok_0@.len() == 0
                        &&& final(self)@ == old(self)@
                        &&& final(ring)@ == old(ring)@
                        &&& bytes_in(*final(buf)) == bytes_in(*old(buf))
                    },
                    Err(e) => {
                        &&& r == Err::<Vec<u64>, ConnectionError>(ConnectionError::Auth(e))
                        &&& final(self)@ == old(self)@
                        &&& final(ring)@ == old(ring)@
                        &&& bytes_in(*final(buf)) == behind_frame(bytes_in(*old(buf)))
                    },
                },
            },
    {
        if self.session.is_none() {
            match server::read_auth_frame(buf) {
                Ok(Some(account)) => {
                    if let Some(lane) = self.lane.take() {
                        self.session = Some(Session::new(self.id, account, lane));
                    }
                },
                Ok(None) => {
                    return Ok(Vec::new());
                },
                Err(e) => {
                    return Err(ConnectionError::Auth(e));
                },
            }
        }
        let mut session = match self.session.take() {
            Some(s) => s,
            None => {
                return Ok(Vec::new());
            },
        };
        let handled = session.handle_all(buf, ring);
        let r = match handled {
            Ok(_) => Ok(session.new_subscriptions(&mut self.forwarded)),
            Err(e) => Err(ConnectionError::Session(e)),
        };
        self.session = Some(session);
        r
    }

    /// Deals with the end of the bytes: the client has left.
    pub fn on_close(&self) -> (r: Result<(), ConnectionError>)
        ensures
            r == if self@.session is Some {
                Ok::<(), ConnectionError>(())
            } else {
                Err(ConnectionError::ClosedDuringAuth)
            },
    {
        if self.session.is_some() {
            Ok(())
        } else {
            Err(ConnectionError::ClosedDuringAuth)
        }
    }
}

/// Bytes that come in two pieces are dealt with like bytes that come at once,
/// as long as nothing is wrong with the first piece: what it does not complete
/// waits for the second.
pub proof fn law_pieces_are_handled_like_the_whole(
    m: SessionModel,
    queue: Seq<Command>,
    a: Seq<u8>,
    b: Seq<u8>,
)
    requires
        session::handles_all(m, queue, a).0.error is None,
    ensures
        ({
            let first = session::handles_all(m, queue, a);
            session::handles_all(m, queue, a + b) == session::handles_all(
                first.0.session,
                first.0.queue,
                first.1 + b,
            )
        }),
    decreases a.len(),
{
    match codec::front_of(a) {
        Front::Frame { msg_type, payload, rest } => {
            codec::law_front_is_settled(a, b);
            let h = m.handles(queue, msg_type, payload);
            law_pieces_are_handled_like_the_whole(h.session, h.queue, rest, b);
        },
        _ => {},
    }
}

/// A connection whose account has become known starts with a session of that
/// account that has subscribed to nothing and knows no orders. It goes on with
/// the bytes behind the first frame.
pub proof fn law_session_starts_afresh(
    id: SessionId,
    account: AccountId,
    msg_type: u8,
    payload: Seq<u8>,
    rest: Seq<u8>,
)
    requires
        payload.len() <= 65535,
    ensures
        ({
            let s = fresh_session(id, account);
            &&& s.id == id
            &&& s.account == account
            &&& forall|i: u64| !#[trigger] s.subscriptions.contains(i)
            &&& forall|i: u64| !#[trigger] s.orders.contains_key(i)
        }),
        behind_frame(codec::frame_bytes(msg_type, payload) + rest) == rest,
{
    let bytes = codec::frame_bytes(msg_type, payload) + rest;
    wire::law_frame_layout(msg_type, payload);
    wire::law_front_of_the_stream(bytes);
    assert(le::u32_at(bytes, 0) == le::u32_at(codec::frame_bytes(msg_type, payload), 0));
    match codec::front_of(bytes) {
        Front::Frame { rest: behind, .. } => {
            assert(behind =~= rest);
        },
        _ => {},
    }
}

/// A connection does with its bytes what its session does with them. If that
/// goes well, it names each instrument that is subscribed to and was not
/// forwarded before, once, and forwards it from then on. Otherwise it passes
/// the error on and forwards what it did before.
pub proof fn law_connection_follows_its_session(
    before: ConnectionModel,
    m: SessionModel,
    queue: Seq<Command>,
    bytes: Seq<u8>,
    after: ConnectionModel,
    later: Seq<Command>,
    left: Seq<u8>,
    r: Result<Vec<u64>, ConnectionError>,
)
    requires
        talks(before, m, queue, bytes, after, later, left, r),
    ensures
        ({
            let d = session::handles_all(m, queue, bytes);
            &&& after.id == before.id
            &&& after.session == Some(d.0.session)
            &&& later == d.0.queue
            &&& left == d.1
            &&& match d.0.error {
                Some(e) => {
                    &&& r == Err::<Vec<u64>, ConnectionError>(ConnectionError::Session(e))
                    &&& after.forwarded == before.forwarded
                },
                None => {
                    &&& r is Ok
                    &&& forall|x: int, y: int|
                        0 <= x < y < r->Ok_0@.len() ==> r->Ok_0@[x] != r->Ok_0@[y]
                    &&& forall|i: u64| #[trigger]
                        r->Ok_0@.contains(i) <==> d.0.session.subscriptions.contains(i)
                            && !before.forwarded.contains(i)
                    &&& forall|i: u64| #[trigger]
                        after.forwarded.contains(i) <==> before.forwarded.contains(i)
                            || d.0.session.subscriptions.contains(i)
                },
            }
        }),
{
}

} // verus!

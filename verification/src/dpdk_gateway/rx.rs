//! Orders out of received packets.

use crate::core_types::commands::Command;
use crate::core_types::le;
use crate::gateway::buffer;
use crate::gateway::codec;
use crate::gateway::codec::Front;
use crate::gateway::session::{Session, SessionModel, LANE_CAP};
use crate::gateway::wire;
use crate::ring_buffer::spsc::{SpscConsumer, SpscShared};
use vstd::prelude::*;

verus! {

/// Number of packets that are fetched at once.
pub const BURST_SIZE: usize = 32;

/// Bytes in front of the order: Ethernet (14), IP without options (20) and
/// UDP (8).
pub const HEADER_SKIP: usize = 42;

/// The bytes behind the headers, `None` for a packet without any.
pub open spec fn payload_of(packet: Seq<u8>) -> Option<Seq<u8>> {
    if packet.len() <= HEADER_SKIP {
        None
    } else {
        Some(packet.skip(HEADER_SKIP as int))
    }
}

/// Reads one queue of a port.
pub struct RxWorker {
    pub port_id: u16,
    pub queue_id: u16,
    /// The session that the orders of the queue belong to.
    pub session: Session,
}

impl RxWorker {
    pub fn new(port_id: u16, queue_id: u16, session: Session) -> (w: RxWorker)
        ensures
            w == (RxWorker { port_id, queue_id, session }),
    {
        RxWorker { port_id, queue_id, session }
    }

    /// Takes the message out of a packet and does what it asks for. Packets
    /// that are too short, messages that are not complete or malformed, and
    /// orders that the ring has no room for are dropped.
    pub fn handle_packet(
        &mut self,
        packet: &Vec<u8>,
        ring: &mut SpscShared<Command, LANE_CAP>,
    )
        requires
            packet@.len() <= u16::MAX,
            old(ring).wf(),
            old(self).session.feeds(*old(ring)),
        ensures
            final(ring).wf(),
            final(self).session.feeds(*final(ring)),
            forall|c: SpscConsumer<Command, LANE_CAP>|
                c.drains(*old(ring)) ==> #[trigger] c.drains(*final(ring)),
            final(self).port_id == old(self).port_id,
            final(self).queue_id == old(self).queue_id,
            ({
                let h = packet_effect(old(self).session@, old(ring)@, packet@);
                final(self).session@ == h.0 && final(ring)@ == h.1
            }),
    {
        if packet.len() <= HEADER_SKIP {
            return;
        }
        let payload = vstd::slice::slice_subrange(packet.as_slice(), HEADER_SKIP, packet.len());
        assert(payload@ =~= packet@.skip(HEADER_SKIP as int));
        let mut buf = buffer::new_buffer();
        buffer::put_slice(&mut buf, payload);
        assert(buffer::bytes_in(buf) =~= payload@);
        let _ = self.session.handle_inbound(&mut buf, ring);
    }
}

/// The session and the ring after a packet.
pub open spec fn packet_effect(m: SessionModel, queue: Seq<Command>, packet: Seq<u8>) -> (
    SessionModel,
    Seq<Command>,
) {
    match payload_of(packet) {
        None => (m, queue),
        Some(payload) => match codec::front_of(payload) {
            Front::Frame { msg_type, payload, .. } => {
                let h = m.handles(queue, msg_type, payload);
                (h.session, h.queue)
            },
            _ => (m, queue),
        },
    }
}

/// The first 42 bytes of a packet are not read. What stands behind them is
/// handled like the first message of a stream, and what does not make up a
/// message is dropped.
pub proof fn law_headers_are_skipped(
    m: SessionModel,
    queue: Seq<Command>,
    headers: Seq<u8>,
    msg_type: u8,
    payload: Seq<u8>,
    rest: Seq<u8>,
)
    requires
        headers.len() == 42,
        payload.len() <= 65535,
    ensures
        ({
            let h = m.handles(queue, msg_type, payload);
            packet_effect(m, queue, headers + (codec::frame_bytes(msg_type, payload) + rest)) == (
                h.session,
                h.queue,
            )
        }),
        rest.len() < 4 || le::u32_at(rest, 0) == 0 || le::u32_at(rest, 0) > 65536 || rest.len() < 4
            + le::u32_at(rest, 0) ==> packet_effect(m, queue, headers + rest) == (m, queue),
        forall|n: int| 0 <= n <= 42 ==> #[trigger] packet_effect(m, queue, headers.take(n)) == (
            m,
            queue,
        ),
{
    let bytes = codec::frame_bytes(msg_type, payload) + rest;
    assert((headers + bytes).skip(42) =~= bytes);
    assert((headers + rest).skip(42) =~= rest);
    wire::law_frame_layout(msg_type, payload);
    wire::law_front_of_the_stream(bytes);
    wire::law_front_of_the_stream(rest);
    assert(le::u32_at(bytes, 0) == le::u32_at(codec::frame_bytes(msg_type, payload), 0));
    match codec::front_of(bytes) {
        Front::Frame { payload: found, .. } => {
            assert(found =~= payload) by {
                assert forall|i: int| 0 <= i < payload.len() implies found[i] == payload[i] by {
                    assert(codec::frame_bytes(msg_type, payload)[5 + i] == payload[i]);
                }
            }
        },
        _ => {},
    }
}

} // verus!

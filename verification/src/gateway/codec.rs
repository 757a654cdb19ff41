//! Length-prefixed framing.
//!
//! ```text
//! +----------+----------+------------------+
//! | u32 len  | u8 type  | payload (len-1)  |
//! +----------+----------+------------------+
//! ```
//!
//! All integers are little-endian. `len` counts the type and the payload.

use crate::core_types::le;
use crate::gateway::buffer;
use crate::gateway::buffer::{bytes_in, has_room};
use bytes::BytesMut;
use vstd::prelude::*;

verus! {

/// Largest `len` of a frame, so that a bad length cannot make a buffer grow
/// without bound.
pub const MAX_FRAME_LEN: u32 = 65536;

/// Bytes of the length prefix.
pub const HEADER_LEN: usize = 4;

/// What is wrong with a frame.
#[derive(Debug, Clone, Copy, PartialEq, Eq, Structural)]
pub enum CodecError {
    /// The length exceeds the maximum.
    FrameTooLarge(u32),
    /// There is no message type.
    FrameTooShort,
    /// No message has this type.
    UnknownMessageType(u8),
}

/// A frame: its type and its payload, not interpreted yet.
#[derive(Debug)]
pub struct Frame {
    pub msg_type: u8,
    pub payload: BytesMut,
}

/// The framer. It keeps no state; the caller owns the buffers.
#[derive(Debug, Clone, Copy)]
pub struct Codec;

/// What is at the front of some bytes.
pub enum Front {
    /// Not yet a whole frame.
    Incomplete,
    /// Something that cannot become a frame.
    Malformed(CodecError),
    /// A frame, and the bytes behind it.
    Frame { msg_type: u8, payload: Seq<u8>, rest: Seq<u8> },
}

/// The bytes of a frame.
pub open spec fn frame_bytes(msg_type: u8, payload: Seq<u8>) -> Seq<u8> {
    le::le_bytes((1 + payload.len()) as nat, 4) + seq![msg_type] + payload
}

/// The payload is small enough for a frame.
pub open spec fn fits_frame(payload: Seq<u8>) -> bool {
    1 + payload.len() <= MAX_FRAME_LEN
}

/// What is at the front of the bytes.
pub open spec fn front_of(bytes: Seq<u8>) -> Front {
    let len = le::le_value(bytes.take(4)) as int;
    if bytes.len() < 4 {
        Front::Incomplete
    } else if len == 0 {
        Front::Malformed(CodecError::FrameTooShort)
    } else if len > MAX_FRAME_LEN {
        Front::Malformed(CodecError::FrameTooLarge(len as u32))
    } else if bytes.len() < 4 + len {
        Front::Incomplete
    } else {
        Front::Frame {
            msg_type: bytes[4],
            payload: bytes.subrange(5, 4 + len),
            rest: bytes.skip(4 + len),
        }
    }
}

/// The number whose bytes stand at a place, lowest first.
pub fn read_le(bytes: &[u8], at: usize, n: usize) -> (v: u64)
    requires
        n <= 8,
        at + n <= bytes@.len(),
    ensures
        v == le::le_value(bytes@.subrange(at as int, at + n)),
{
    let mut v: u64 = 0;
    let mut i: usize = n;
    let total: usize = bytes.len();
    proof {
        assert(bytes@.subrange(at + n, at + n) =~= Seq::<u8>::empty());
        le::lemma_le_limits();
    }
    while i > 0
        invariant
            i <= n <= 8,
            at + n <= bytes@.len() == total,
            v == le::le_value(bytes@.subrange(at + i, at + n)),
        decreases i,
    {
        i -= 1;
        proof {
            let part = bytes@.subrange(at + i, at + n);
            assert(part.drop_first() =~= bytes@.subrange(at + i + 1, at + n));
            le::law_le_bytes_roundtrip(part);
            le::lemma_limit_monotone(part.len(), 8);
            le::lemma_le_limits();
        }
        v = v * 256 + bytes[at + i] as u64;
    }
    v
}

impl Codec {
    /// Takes a frame from the front of `buf`.
    ///
    /// `Ok(None)` means that the frame is not complete yet; the bytes stay
    /// where they are, and there is room for the rest of the frame. After an
    /// error the connection cannot be used any more.
    pub fn decode(&self, buf: &mut BytesMut) -> (r: Result<Option<Frame>, CodecError>)
        ensures
            match front_of(bytes_in(*old(buf))) {
                Front::Incomplete => r == Ok::<Option<Frame>, CodecError>(None) && bytes_in(
                    *final(buf),
                ) == bytes_in(*old(buf)),
                Front::Malformed(e) => r == Err::<Option<Frame>, CodecError>(e) && bytes_in(
                    *final(buf),
                ) == bytes_in(*old(buf)),
                Front::Frame { msg_type, payload, rest } => {
                    &&& r is Ok
                    &&& r->Ok_0 is Some
                    &&& r->Ok_0->0.msg_type == msg_type
                    &&& bytes_in(r->Ok_0->0.payload) == payload
                    &&& bytes_in(*final(buf)) == rest
                },
            },
    {
        let ghost bytes = bytes_in(*buf);
        let have: usize = buffer::buffer_len(buf);
        if have < HEADER_LEN {
            return Ok(None);
        }
        proof {
            le::law_le_bytes_roundtrip(bytes.take(4));
            le::lemma_le_limits();
            assert(bytes.take(4) =~= bytes.subrange(0, 4));
        }
        let len: u32 = read_le(buffer::buffer_slice(buf), 0, 4) as u32;
        if len == 0 {
            return Err(CodecError::FrameTooShort);
        }
        if len > MAX_FRAME_LEN {
            return Err(CodecError::FrameTooLarge(len));
        }
        let total_len: usize = HEADER_LEN + len as usize;
        if have < total_len {
            buffer::reserve(buf, total_len - have);
            return Ok(None);
        }
        buffer::advance(buf, HEADER_LEN);
        let mut payload = buffer::split_to(buf, len as usize);
        let msg_type: u8 = buffer::buffer_slice(&payload)[0];
        buffer::advance(&mut payload, 1);
        proof {
            assert(bytes_in(payload) =~= bytes.subrange(5, 4 + len));
            assert(bytes_in(*buf) =~= bytes.skip(4 + len));
        }
        Ok(Some(Frame { msg_type, payload }))
    }

    /// Appends a frame to `out`.
    pub fn encode(&self, msg_type: u8, payload: &[u8], out: &mut BytesMut) -> (r: Result<
        (),
        CodecError,
    >)
        requires
            fits_frame(payload@) ==> has_room(*old(out), payload@.len() + 5int),
        ensures
            fits_frame(payload@) ==> r is Ok && bytes_in(*final(out)) == bytes_in(*old(out))
                + frame_bytes(msg_type, payload@),
            !fits_frame(payload@) ==> {
                &&& bytes_in(*final(out)) == bytes_in(*old(out))
                &&& r == Err::<(), CodecError>(
                    CodecError::FrameTooLarge(
                        if 1 + payload@.len() <= u32::MAX {
                            (1 + payload@.len()) as u32
                        } else {
                            u32::MAX
                        },
                    ),
                )
            },
    {
        if payload.len() >= u32::MAX as usize {
            return Err(CodecError::FrameTooLarge(u32::MAX));
        }
        let len: u32 = 1 + payload.len() as u32;
        if len > MAX_FRAME_LEN {
            return Err(CodecError::FrameTooLarge(len));
        }
        let ghost before = bytes_in(*out);
        proof {
            le::lemma_le_len(len as nat, 4);
        }
        buffer::reserve(out, HEADER_LEN + len as usize);
        buffer::put_u32_le(out, len);
        buffer::put_u8(out, msg_type);
        buffer::put_slice(out, payload);
        assert(bytes_in(*out) =~= before + frame_bytes(msg_type, payload@));
        Ok(())
    }
}

/// Decoding takes back exactly what encoding wrote, whatever follows.
pub proof fn law_frame_roundtrip(msg_type: u8, payload: Seq<u8>, rest: Seq<u8>)
    requires
        fits_frame(payload),
    ensures
        front_of(frame_bytes(msg_type, payload) + rest) == (Front::Frame {
            msg_type,
            payload,
            rest,
        }),
{
    let n = (1 + payload.len()) as nat;
    let len = n as int;
    let bytes = frame_bytes(msg_type, payload) + rest;
    le::lemma_le_limits();
    le::law_le_roundtrip(n, 4);
    assert(bytes.take(4) =~= le::le_bytes(n, 4));
    assert(bytes.subrange(5, 4 + len) =~= payload);
    assert(bytes.skip(4 + len) =~= rest);
    assert(bytes[4] == msg_type);
}

/// What is at the front does not change when more bytes arrive, once it is a
/// frame or an error.
pub proof fn law_front_is_settled(a: Seq<u8>, b: Seq<u8>)
    ensures
        match front_of(a) {
            Front::Incomplete => true,
            Front::Malformed(e) => front_of(a + b) == Front::Malformed(e),
            Front::Frame { msg_type, payload, rest } => front_of(a + b) == (Front::Frame {
                msg_type,
                payload,
                rest: rest + b,
            }),
        },
{
    if a.len() >= 4 {
        assert((a + b).take(4) =~= a.take(4));
        let len = le::le_value(a.take(4)) as int;
        if len > 0 && a.len() >= 4 + len {
            assert((a + b).subrange(5, 4 + len) =~= a.subrange(5, 4 + len));
            assert((a + b).skip(4 + len) =~= a.skip(4 + len) + b);
        }
    }
}

/// A frame that has arrived only in part is left alone: no front part of it
/// is taken for a frame or for an error.
pub proof fn law_partial_frame_waits(msg_type: u8, payload: Seq<u8>, n: int)
    requires
        fits_frame(payload),
        0 <= n < frame_bytes(msg_type, payload).len(),
    ensures
        front_of(frame_bytes(msg_type, payload).take(n)) == Front::Incomplete,
{
    let len = (1 + payload.len()) as nat;
    let whole = frame_bytes(msg_type, payload);
    le::lemma_le_limits();
    le::law_le_roundtrip(len, 4);
    if n >= 4 {
        assert(whole.take(n).take(4) =~= le::le_bytes(len, 4));
    }
}

} // verus!

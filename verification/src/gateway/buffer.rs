//! Byte buffers: `bytes::BytesMut`.

use crate::core_types::le;
use bytes::{Buf, BufMut, BytesMut};
use vstd::prelude::*;

verus! {

/// `bytes::BytesMut`, a growable buffer that bytes are added to at the end
/// and taken from at the front.
#[verifier::external_type_specification]
#[verifier::external_body]
pub struct ExBytesMut(BytesMut);

/// The bytes in the buffer.
pub uninterp spec fn bytes_in(buf: BytesMut) -> Seq<u8>;

/// The buffer can grow by `extra` bytes. An allocation holds at most
/// `isize::MAX` bytes, and a buffer may keep up to as many consumed bytes as
/// it is going to hold.
pub open spec fn has_room(buf: BytesMut, extra: int) -> bool {
    2 * (bytes_in(buf).len() + extra) <= isize::MAX
}

/// Calls `BytesMut::new`, an empty buffer.
#[verifier::external_body]
pub(crate) fn new_buffer() -> (buf: BytesMut)
    ensures
        bytes_in(buf) == Seq::<u8>::empty(),
{
    BytesMut::new()
}

/// Calls `BytesMut::len`, the number of bytes.
#[verifier::external_body]
pub(crate) fn buffer_len(buf: &BytesMut) -> (n: usize)
    ensures
        n == bytes_in(*buf).len(),
{
    buf.len()
}

/// Calls `BytesMut::deref`: the bytes as a slice.
#[verifier::external_body]
pub(crate) fn buffer_slice(buf: &BytesMut) -> (s: &[u8])
    ensures
        s@ == bytes_in(*buf),
{
    buf
}

/// Calls `BytesMut::reserve`, which makes room for more bytes and leaves
/// those in the buffer as they are. How much room there is afterwards is not
/// stated. The call panics where the allocation would become too large.
#[verifier::external_body]
pub(crate) fn reserve(buf: &mut BytesMut, additional: usize)
    requires
        has_room(*old(buf), additional as int),
    ensures
        bytes_in(*final(buf)) == bytes_in(*old(buf)),
{
    buf.reserve(additional)
}

/// Calls `Buf::advance` of `BytesMut`, which drops bytes at the front. The
/// call panics if there are not so many.
#[verifier::external_body]
pub(crate) fn advance(buf: &mut BytesMut, n: usize)
    requires
        n <= bytes_in(*old(buf)).len(),
    ensures
        bytes_in(*final(buf)) == bytes_in(*old(buf)).skip(n as int),
{
    buf.advance(n)
}

/// Calls `BytesMut::split_to`, which takes bytes from the front into a buffer
/// of their own. The call panics if there are not so many.
#[verifier::external_body]
pub(crate) fn split_to(buf: &mut BytesMut, n: usize) -> (front: BytesMut)
    requires
        n <= bytes_in(*old(buf)).len(),
    ensures
        bytes_in(front) == bytes_in(*old(buf)).take(n as int),
        bytes_in(*final(buf)) == bytes_in(*old(buf)).skip(n as int),
{
    buf.split_to(n)
}

/// Calls `BufMut::put_u8` of `BytesMut`, which appends a byte.
#[verifier::external_body]
pub(crate) fn put_u8(buf: &mut BytesMut, v: u8)
    requires
        has_room(*old(buf), 1),
    ensures
        bytes_in(*final(buf)) == bytes_in(*old(buf)).push(v),
{
    buf.put_u8(v)
}

/// Calls `BufMut::put_u32_le` of `BytesMut`, which appends the four bytes of
/// a number, lowest first.
#[verifier::external_body]
pub(crate) fn put_u32_le(buf: &mut BytesMut, v: u32)
    requires
        has_room(*old(buf), 4),
    ensures
        bytes_in(*final(buf)) == bytes_in(*old(buf)) + le::le_bytes(v as nat, 4),
{
    buf.put_u32_le(v)
}

/// Calls `BufMut::put_u64_le` of `BytesMut`, which appends the eight bytes of
/// a number, lowest first.
#[verifier::external_body]
pub(crate) fn put_u64_le(buf: &mut BytesMut, v: u64)
    requires
        has_room(*old(buf), 8),
    ensures
        bytes_in(*final(buf)) == bytes_in(*old(buf)) + le::le_bytes(v as nat, 8),
{
    buf.put_u64_le(v)
}

/// Calls `BufMut::put_i64_le` of `BytesMut`, which appends the eight bytes of
/// a number in two's complement, lowest first.
#[verifier::external_body]
pub(crate) fn put_i64_le(buf: &mut BytesMut, v: i64)
    requires
        has_room(*old(buf), 8),
    ensures
        bytes_in(*final(buf)) == bytes_in(*old(buf)) + le::le_bytes((v as u64) as nat, 8),
{
    buf.put_i64_le(v)
}

/// Calls `BufMut::put_slice` of `BytesMut`, which appends the bytes.
#[verifier::external_body]
pub(crate) fn put_slice(buf: &mut BytesMut, bytes: &[u8])
    requires
        has_room(*old(buf), bytes@.len() as int),
    ensures
        bytes_in(*final(buf)) == bytes_in(*old(buf)) + bytes@,
{
    buf.put_slice(bytes)
}

} // verus!

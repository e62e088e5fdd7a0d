//! The growable byte buffer and the read cursor of the `bytes` crate, as far as
//! frames are written and read with them.

use bytes::{Buf, BufMut};
use vstd::prelude::*;

use crate::big_endian;

verus! {

/// `bytes::BytesMut`, an opaque growable byte buffer.
#[verifier::external_type_specification]
#[verifier::external_body]
pub struct ExBytesMut(bytes::BytesMut);

/// What a buffer holds, first byte first.
pub uninterp spec fn buffer_bytes(buffer: bytes::BytesMut) -> Seq<u8>;

/// The largest content that a buffer is asked to grow to. Up to it the growth
/// of a buffer, which at most doubles its capacity, stays below `isize::MAX`.
pub const BUFFER_LIMIT: usize = 0x3fff_ffff;

/// `bytes::BytesMut::new`: an empty buffer.
#[verifier::external_body]
pub(crate) fn buffer_new() -> (buffer: bytes::BytesMut)
    ensures
        buffer_bytes(buffer) == Seq::<u8>::empty(),
{
    bytes::BytesMut::new()
}

/// `bytes::BytesMut::with_capacity`: an empty buffer, whatever the capacity.
#[verifier::external_body]
pub(crate) fn buffer_with_capacity(capacity: usize) -> (buffer: bytes::BytesMut)
    requires
        capacity <= BUFFER_LIMIT,
    ensures
        buffer_bytes(buffer) == Seq::<u8>::empty(),
{
    bytes::BytesMut::with_capacity(capacity)
}

/// `bytes::BufMut::put_u8`: appends one byte.
#[verifier::external_body]
pub(crate) fn buffer_put_u8(buffer: &mut bytes::BytesMut, value: u8)
    requires
        buffer_bytes(*old(buffer)).len() + 1 <= BUFFER_LIMIT,
    ensures
        buffer_bytes(*final(buffer)) == buffer_bytes(*old(buffer)).push(value),
{
    buffer.put_u8(value)
}

/// `bytes::BufMut::put_u16`: appends the number in two big-endian bytes.
#[verifier::external_body]
pub(crate) fn buffer_put_u16(buffer: &mut bytes::BytesMut, value: u16)
    requires
        buffer_bytes(*old(buffer)).len() + 2 <= BUFFER_LIMIT,
    ensures
        buffer_bytes(*final(buffer)) == buffer_bytes(*old(buffer)) + big_endian::be_bytes(
            value as nat,
            2,
        ),
{
    buffer.put_u16(value)
}

/// `bytes::BufMut::put_u64`: appends the number in eight big-endian bytes.
#[verifier::external_body]
pub(crate) fn buffer_put_u64(buffer: &mut bytes::BytesMut, value: u64)
    requires
        buffer_bytes(*old(buffer)).len() + 8 <= BUFFER_LIMIT,
    ensures
        buffer_bytes(*final(buffer)) == buffer_bytes(*old(buffer)) + big_endian::be_bytes(
            value as nat,
            8,
        ),
{
    buffer.put_u64(value)
}

/// `bytes::BytesMut::extend_from_slice`: appends all of `extra`.
#[verifier::external_body]
pub(crate) fn buffer_extend(buffer: &mut bytes::BytesMut, extra: &[u8])
    requires
        buffer_bytes(*old(buffer)).len() + extra@.len() <= BUFFER_LIMIT,
    ensures
        buffer_bytes(*final(buffer)) == buffer_bytes(*old(buffer)) + extra@,
{
    buffer.extend_from_slice(extra)
}

/// The `AsRef<[u8]>` view of `bytes::BytesMut`: all of its content.
#[verifier::external_body]
pub(crate) fn buffer_slice(buffer: &bytes::BytesMut) -> (content: &[u8])
    ensures
        content@ == buffer_bytes(*buffer),
{
    buffer.as_ref()
}

/// `bytes::Buf::get_u8` on a slice: takes the first byte off the cursor.
#[verifier::external_body]
pub(crate) fn cursor_get_u8(cursor: &mut &[u8]) -> (value: u8)
    requires
        (*old(cursor))@.len() >= 1,
    ensures
        value == (*old(cursor))@[0],
        (*final(cursor))@ == (*old(cursor))@.skip(1),
{
    cursor.get_u8()
}

/// `bytes::Buf::get_u16` on a slice: takes two bytes off the cursor and reads
/// them as a big-endian number.
#[verifier::external_body]
pub(crate) fn cursor_get_u16(cursor: &mut &[u8]) -> (value: u16)
    requires
        (*old(cursor))@.len() >= 2,
    ensures
        value == big_endian::be_value((*old(cursor))@.take(2)),
        (*final(cursor))@ == (*old(cursor))@.skip(2),
{
    cursor.get_u16()
}

/// `bytes::Buf::get_u64` on a slice: takes eight bytes off the cursor and reads
/// them as a big-endian number.
#[verifier::external_body]
pub(crate) fn cursor_get_u64(cursor: &mut &[u8]) -> (value: u64)
    requires
        (*old(cursor))@.len() >= 8,
    ensures
        value == big_endian::be_value((*old(cursor))@.take(8)),
        (*final(cursor))@ == (*old(cursor))@.skip(8),
{
    cursor.get_u64()
}

/// `bytes::Buf::copy_to_slice` on a slice: fills `target` with the first bytes
/// of the cursor and takes them off it.
#[verifier::external_body]
pub(crate) fn cursor_copy_to_slice(cursor: &mut &[u8], target: &mut Vec<u8>)
    requires
        (*old(cursor))@.len() >= old(target)@.len(),
    ensures
        final(target)@ == (*old(cursor))@.take(old(target)@.len() as int),
        (*final(cursor))@ == (*old(cursor))@.skip(old(target)@.len() as int),
{
    cursor.copy_to_slice(target)
}

} // verus!

//! The output buffer. Messages are written to a `bytes::BytesMut` and handed
//! out as `bytes::Bytes`. Verus does not look into either; the contracts below
//! say of each operation used here what it does to the bytes that a buffer
//! holds.

use bytes::{BufMut, Bytes, BytesMut};
use vstd::prelude::*;

verus! {

/// `bytes::BytesMut`, the buffer that grows as it is written to. Of a value
/// nothing is known but what [`written`] says.
#[verifier::external_type_specification]
#[verifier::external_body]
pub struct ExBytesMut(bytes::BytesMut);

/// `bytes::Bytes`, the bytes of a buffer that changes no more. Of a value
/// nothing is known but what [`frozen`] says.
#[verifier::external_type_specification]
#[verifier::external_body]
pub struct ExBytes(bytes::Bytes);

/// The bytes that a buffer holds, first written first: what `as_ref` on it
/// shows.
pub uninterp spec fn written(buf: BytesMut) -> Seq<u8>;

/// The bytes of a frozen buffer: what `as_ref` on it shows.
pub uninterp spec fn frozen(bytes: Bytes) -> Seq<u8>;

/// Whether `n` more bytes fit into a buffer. A `BytesMut` grows as needed
/// while it holds no more than `isize::MAX` bytes, the most that one
/// allocation can have, and panics beyond; every writer asks for the room it
/// needs. This counts the bytes that the buffer holds: it is said of buffers
/// that were only written to, from whose front nothing was taken.
pub open spec fn fits(buf: BytesMut, n: int) -> bool {
    written(buf).len() + n <= isize::MAX
}

/// `BytesMut::with_capacity`: an empty buffer.
#[verifier::external_body]
pub(crate) fn with_capacity(capacity: usize) -> (buf: BytesMut)
    requires
        capacity <= isize::MAX,
    ensures
        written(buf) == Seq::<u8>::empty(),
{
    BytesMut::with_capacity(capacity)
}

/// `BufMut::put_u8` on a `BytesMut`: appends the byte.
#[verifier::external_body]
pub(crate) fn put_u8(buf: &mut BytesMut, n: u8)
    requires
        fits(*old(buf), 1),
    ensures
        written(*final(buf)) == written(*old(buf)).push(n),
{
    buf.put_u8(n)
}

/// `BufMut::put_u16` on a `BytesMut`: appends the two bytes of `n`, high byte
/// first.
#[verifier::external_body]
pub(crate) fn put_u16(buf: &mut BytesMut, n: u16)
    requires
        fits(*old(buf), 2),
    ensures
        written(*final(buf)) == written(*old(buf)) + spec_u16_bytes(n),
{
    buf.put_u16(n)
}

/// `BufMut::put_u32` on a `BytesMut`: appends the four bytes of `n`, highest
/// byte first.
#[verifier::external_body]
pub(crate) fn put_u32(buf: &mut BytesMut, n: u32)
    requires
        fits(*old(buf), 4),
    ensures
        written(*final(buf)) == written(*old(buf)) + spec_u32_bytes(n),
{
    buf.put_u32(n)
}

/// `BufMut::put_slice` on a `BytesMut`: appends the bytes of `src`.
#[verifier::external_body]
pub(crate) fn put_slice(buf: &mut BytesMut, src: &[u8])
    requires
        fits(*old(buf), src@.len() as int),
    ensures
        written(*final(buf)) == written(*old(buf)) + src@,
{
    buf.put_slice(src)
}

/// `BytesMut::freeze`: the same bytes, immutable.
#[verifier::external_body]
pub(crate) fn freeze(buf: BytesMut) -> (bytes: Bytes)
    ensures
        frozen(bytes) == written(buf),
{
    buf.freeze()
}

/// The big-endian bytes of a 16-bit number.
pub open spec fn spec_u16_bytes(n: u16) -> Seq<u8> {
    seq![(n / 0x100) as u8, (n % 0x100) as u8]
}

/// The big-endian bytes of a 32-bit number.
pub open spec fn spec_u32_bytes(n: u32) -> Seq<u8> {
    seq![
        (n / 0x100_0000) as u8,
        (n / 0x1_0000 % 0x100) as u8,
        (n / 0x100 % 0x100) as u8,
        (n % 0x100) as u8,
    ]
}

} // verus!

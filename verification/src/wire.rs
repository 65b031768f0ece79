use vstd::prelude::*;
use bytes::{Buf, BufMut, BytesMut};
use byteorder::ByteOrder;

verus! {

/// The byte buffer of the `bytes` crate, carried through as it is.
#[verifier::external_type_specification]
#[verifier::external_body]
pub struct ExBytesMut(BytesMut);

/// The bytes a `BytesMut` holds, first to last.
pub uninterp spec fn buffer_bytes(b: BytesMut) -> Seq<u8>;

/// The value of four bytes read as a big-endian (network order) number.
pub open spec fn be_u32_value(b: Seq<u8>) -> int
    recommends
        b.len() >= 4,
{
    b[0] * 0x100_0000 + b[1] * 0x1_0000 + b[2] * 0x100 + b[3]
}

/// The four bytes of a number in big-endian (network) order.
pub open spec fn be_bytes(n: u32) -> Seq<u8> {
    seq![
        ((n >> 24u32) & 0xffu32) as u8,
        ((n >> 16u32) & 0xffu32) as u8,
        ((n >> 8u32) & 0xffu32) as u8,
        (n & 0xffu32) as u8,
    ]
}

/// Reading back the four bytes of a number gives the number.
pub proof fn lemma_be_roundtrip(n: u32)
    ensures
        be_bytes(n).len() == 4,
        be_u32_value(be_bytes(n)) == n,
{
    let b0 = (n >> 24u32) & 0xffu32;
    let b1 = (n >> 16u32) & 0xffu32;
    let b2 = (n >> 8u32) & 0xffu32;
    let b3 = n & 0xffu32;
    assert(b0 < 256 && b1 < 256 && b2 < 256 && b3 < 256) by (bit_vector)
        requires
            b0 == (n >> 24u32) & 0xffu32,
            b1 == (n >> 16u32) & 0xffu32,
            b2 == (n >> 8u32) & 0xffu32,
            b3 == n & 0xffu32,
    ;
    assert(b0 * 0x100_0000 + b1 * 0x1_0000 + b2 * 0x100 + b3 == n) by (bit_vector)
        requires
            b0 == (n >> 24u32) & 0xffu32,
            b1 == (n >> 16u32) & 0xffu32,
            b2 == (n >> 8u32) & 0xffu32,
            b3 == n & 0xffu32,
    ;
}

/// The number of bytes in a buffer.
///
/// Wraps `BytesMut::len`, which returns the length of the held bytes.
#[verifier::external_body]
pub(crate) fn buf_len(b: &BytesMut) -> (r: usize)
    ensures
        r == buffer_bytes(*b).len(),
{
    b.len()
}

/// The bytes of a buffer as a slice.
///
/// Wraps `<BytesMut as AsRef<[u8]>>::as_ref`, which returns the held bytes.
#[verifier::external_body]
pub(crate) fn buf_bytes(b: &BytesMut) -> (r: &[u8])
    ensures
        r@ == buffer_bytes(*b),
{
    b.as_ref()
}

/// Cuts the first `at` bytes off a buffer and returns them.
///
/// Wraps `BytesMut::split_to`: afterwards the buffer holds the bytes from `at`
/// on and the result the bytes before `at`; it panics when `at` exceeds the
/// length, which the precondition rules out.
#[verifier::external_body]
pub(crate) fn buf_split_to(b: &mut BytesMut, at: usize) -> (r: BytesMut)
    requires
        at <= buffer_bytes(*old(b)).len(),
    ensures
        buffer_bytes(r) == buffer_bytes(*old(b)).take(at as int),
        buffer_bytes(*final(b)) == buffer_bytes(*old(b)).skip(at as int),
{
    b.split_to(at)
}

/// Drops the first `cnt` bytes of a buffer.
///
/// Wraps `<BytesMut as Buf>::advance`; it panics when `cnt` exceeds the length,
/// which the precondition rules out.
#[verifier::external_body]
pub(crate) fn buf_advance(b: &mut BytesMut, cnt: usize)
    requires
        cnt <= buffer_bytes(*old(b)).len(),
    ensures
        buffer_bytes(*final(b)) == buffer_bytes(*old(b)).skip(cnt as int),
{
    b.advance(cnt)
}

/// Appends bytes to a buffer.
///
/// Wraps `BytesMut::extend_from_slice`, which grows the buffer as needed and
/// copies the bytes after the held ones; growing past `isize::MAX` bytes
/// panics, which the precondition rules out.
#[verifier::external_body]
pub(crate) fn buf_extend(b: &mut BytesMut, s: &[u8])
    requires
        buffer_bytes(*old(b)).len() + s@.len() <= isize::MAX,
    ensures
        buffer_bytes(*final(b)) == buffer_bytes(*old(b)) + s@,
{
    b.extend_from_slice(s)
}

/// Appends a number as four big-endian bytes.
///
/// Wraps `<BytesMut as BufMut>::put_u32`, which appends `n.to_be_bytes()`.
#[verifier::external_body]
pub(crate) fn buf_put_u32(b: &mut BytesMut, n: u32)
    requires
        buffer_bytes(*old(b)).len() + 4 <= isize::MAX,
    ensures
        buffer_bytes(*final(b)) == buffer_bytes(*old(b)) + be_bytes(n),
{
    b.put_u32(n)
}

/// Reads the first four bytes of a slice as a big-endian number.
///
/// Wraps `byteorder::NetworkEndian::read_u32`, which is
/// `u32::from_be_bytes(buf[..4])`; it panics on fewer than four bytes, which
/// the precondition rules out.
#[verifier::external_body]
pub(crate) fn read_u32_network(buf: &[u8]) -> (r: u32)
    requires
        buf@.len() >= 4,
    ensures
        r as int == be_u32_value(buf@),
{
    byteorder::NetworkEndian::read_u32(buf)
}

} // verus!

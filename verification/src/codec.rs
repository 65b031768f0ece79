use vstd::prelude::*;
use bytes::BytesMut;
use crate::wire::{be_bytes, be_u32_value, buffer_bytes, buf_len, buf_bytes, buf_split_to, buf_advance, buf_extend, buf_put_u32, read_u32_network, lemma_be_roundtrip};

verus! {

/// The number of bytes of the greeting that opens a connection.
pub const PREFIX_LEN: usize = 11;

/// The number of bytes of each of the two length fields of a frame.
pub const ENDIAN_LENGTH: usize = 4;

/// The greeting `ACTIX/1.0\r\n` that a connecting node sends first.
pub open spec fn prefix() -> Seq<u8> {
    seq![0x41u8, 0x43u8, 0x54u8, 0x49u8, 0x58u8, 0x2fu8, 0x31u8, 0x2eu8, 0x30u8, 0x0du8, 0x0au8]
}

/// The greeting as a vector of bytes.
pub fn prefix_bytes() -> (r: Vec<u8>)
    ensures
        r@ == prefix(),
{
    let r: Vec<u8> = vec![0x41u8, 0x43u8, 0x54u8, 0x49u8, 0x58u8, 0x2fu8, 0x31u8, 0x2eu8, 0x30u8, 0x0du8, 0x0au8];
    assert(r@ =~= prefix());
    r
}

/// One message cut from the stream: the serialized header and the payload
/// that travels after it (empty when the frame carries none).
pub struct Frame {
    pub header: Vec<u8>,
    pub buffer: Vec<u8>,
}

/// The input does not start with the greeting.
#[derive(Debug, PartialEq, Eq, Structural)]
pub enum CodecError {
    PrefixMismatch,
}

/// What decoding a stream gives, over byte sequences.
pub enum DecodeOutcome {
    Frame(Seq<u8>, Seq<u8>),
    NeedMore,
    Mismatch,
}

/// The bytes of a frame: the length of header and payload together, the length
/// of the header, both as four big-endian bytes, then the header and the payload.
/// The lengths are cut to 32 bits as the encoder writes them.
pub open spec fn frame_bytes(header: Seq<u8>, buffer: Seq<u8>) -> Seq<u8> {
    be_bytes((header.len() + buffer.len()) as u32) + be_bytes(header.len() as u32) + header + buffer
}

/// Decoding once the greeting has been seen: the outcome and the bytes left.
pub open spec fn decode_frame(s: Seq<u8>) -> (DecodeOutcome, Seq<u8>) {
    if s.len() < 4 {
        (DecodeOutcome::NeedMore, s)
    } else {
        let size = be_u32_value(s);
        if s.len() >= size + 8 {
            let header_size = be_u32_value(s.subrange(4, 8));
            let rest = s.skip(8);
            if size > header_size {
                (
                    DecodeOutcome::Frame(rest.take(header_size), rest.subrange(header_size, size)),
                    rest.skip(size),
                )
            } else {
                (DecodeOutcome::Frame(rest.take(size), Seq::empty()), rest.skip(size))
            }
        } else {
            (DecodeOutcome::NeedMore, s)
        }
    }
}

/// Decoding with the greeting seen or not: the outcome, whether the greeting
/// has been seen afterwards, and the bytes left.
pub open spec fn decode_spec(prefix_seen: bool, s: Seq<u8>) -> (DecodeOutcome, bool, Seq<u8>) {
    if prefix_seen {
        (decode_frame(s).0, true, decode_frame(s).1)
    } else if s.len() < PREFIX_LEN {
        (DecodeOutcome::NeedMore, false, s)
    } else if s.take(PREFIX_LEN as int) == prefix() {
        (decode_frame(s.skip(PREFIX_LEN as int)).0, true, decode_frame(s.skip(PREFIX_LEN as int)).1)
    } else {
        (DecodeOutcome::Mismatch, false, s)
    }
}

/// A decode result agrees with an outcome over byte sequences.
pub open spec fn result_matches(r: Result<Option<Frame>, CodecError>, o: DecodeOutcome) -> bool {
    match o {
        DecodeOutcome::Frame(h, b) => r matches Ok(Some(f)) && f.header@ == h && f.buffer@ == b,
        DecodeOutcome::NeedMore => r matches Ok(None),
        DecodeOutcome::Mismatch => r matches Err(CodecError::PrefixMismatch),
    }
}

/// What encoding appends: the greeting when asked for, then the frame.
pub open spec fn encoded_bytes(with_prefix: bool, header: Seq<u8>, buffer: Seq<u8>) -> Seq<u8> {
    if with_prefix {
        prefix() + frame_bytes(header, buffer)
    } else {
        frame_bytes(header, buffer)
    }
}

/// Cuts frames from the byte stream of one connection and writes frames to it.
///
/// The stream starts with the greeting, which the decoder checks once; after
/// it come frames, each two lengths followed by a header and a payload.
pub struct ConnectCodec {
    pub prefix: bool,
}

impl ConnectCodec {
    /// A codec that has not yet seen the greeting.
    pub fn new() -> (r: ConnectCodec)
        ensures
            !r.prefix,
    {
        ConnectCodec { prefix: false }
    }

    /// Whether the slice starts with the greeting.
    fn starts_with_prefix(s: &[u8]) -> (r: bool)
        requires
            s@.len() >= PREFIX_LEN,
        ensures
            r == (s@.take(PREFIX_LEN as int) == prefix()),
    {
        let p = prefix_bytes();
        let mut i: usize = 0;
        while i < PREFIX_LEN
            invariant
                i <= PREFIX_LEN,
                s@.len() >= PREFIX_LEN,
                p@ == prefix(),
                forall|j: int| 0 <= j < i ==> s@[j] == prefix()[j],
            decreases PREFIX_LEN - i,
        {
            if s[i] != p[i] {
                assert(s@.take(PREFIX_LEN as int)[i as int] != prefix()[i as int]);
                return false;
            }
            i = i + 1;
        }
        assert(s@.take(PREFIX_LEN as int) =~= prefix());
        true
    }

    /// Cuts the next frame off the front of `src`.
    ///
    /// Before the greeting has been seen, fewer than eleven bytes give
    /// `Ok(None)`, and eleven bytes other than the greeting give an error with
    /// `src` untouched; the greeting is consumed once. Then a frame is cut only
    /// when all of it is there; otherwise `Ok(None)` and the bytes stay.
    pub fn decode(&mut self, src: &mut BytesMut) -> (r: Result<Option<Frame>, CodecError>)
        ensures
            result_matches(r, decode_spec(old(self).prefix, buffer_bytes(*old(src))).0),
            final(self).prefix == decode_spec(old(self).prefix, buffer_bytes(*old(src))).1,
            buffer_bytes(*final(src)) == decode_spec(old(self).prefix, buffer_bytes(*old(src))).2,
    {
        let ghost s0 = buffer_bytes(*src);
        if !self.prefix {
            let n = buf_len(src);
            if n < PREFIX_LEN {
                return Ok(None);
            }
            if Self::starts_with_prefix(buf_bytes(src)) {
                let _greeting = buf_split_to(src, PREFIX_LEN);
                self.prefix = true;
            } else {
                return Err(CodecError::PrefixMismatch);
            }
        }
        let ghost s = buffer_bytes(*src);
        assert(!old(self).prefix ==> s == s0.skip(PREFIX_LEN as int));
        assert(old(self).prefix ==> s == s0);
        let n = buf_len(src);
        if n < ENDIAN_LENGTH {
            return Ok(None);
        }
        let size: u32 = read_u32_network(buf_bytes(src));
        if (n as u64) >= (size as u64) + 8 {
            buf_advance(src, ENDIAN_LENGTH);
            assert(buffer_bytes(*src).take(4) =~= s.subrange(4, 8));
            let header_size: u32 = read_u32_network(buf_bytes(src));
            buf_advance(src, ENDIAN_LENGTH);
            assert(buffer_bytes(*src) =~= s.skip(8));
            if size > header_size {
                let header = buf_split_to(src, header_size as usize);
                let buf = buf_split_to(src, (size - header_size) as usize);
                let header_vec = vstd::slice::slice_to_vec(buf_bytes(&header));
                let buf_vec = vstd::slice::slice_to_vec(buf_bytes(&buf));
                proof {
                    let rest = s.skip(8);
                    assert(buf_vec@ =~= rest.subrange(header_size as int, size as int));
                    assert(buffer_bytes(*src) =~= rest.skip(size as int));
                }
                Ok(Some(Frame { header: header_vec, buffer: buf_vec }))
            } else {
                let buf = buf_split_to(src, size as usize);
                let header_vec = vstd::slice::slice_to_vec(buf_bytes(&buf));
                let ghost empty: Seq<u8> = Seq::empty();
                let buffer_vec: Vec<u8> = Vec::new();
                assert(buffer_vec@ =~= empty);
                Ok(Some(Frame { header: header_vec, buffer: buffer_vec }))
            }
        } else {
            Ok(None)
        }
    }

    /// Appends one frame to `dst`: the greeting first when `with_prefix` is
    /// set, then the two lengths, the header and the payload.
    pub fn encode(&mut self, with_prefix: bool, header: &[u8], buffer: &[u8], dst: &mut BytesMut)
        requires
            buffer_bytes(*old(dst)).len() + PREFIX_LEN + 2 * ENDIAN_LENGTH + header@.len()
                + buffer@.len() <= isize::MAX,
        ensures
            *final(self) == *old(self),
            buffer_bytes(*final(dst)) == buffer_bytes(*old(dst)) + encoded_bytes(
                with_prefix,
                header@,
                buffer@,
            ),
    {
        let ghost d0 = buffer_bytes(*dst);
        if with_prefix {
            let p = prefix_bytes();
            buf_extend(dst, p.as_slice());
        }
        let ghost d1 = buffer_bytes(*dst);
        let total: usize = header.len() + buffer.len();
        buf_put_u32(dst, total as u32);
        buf_put_u32(dst, header.len() as u32);
        buf_extend(dst, header);
        buf_extend(dst, buffer);
        proof {
            let f = frame_bytes(header@, buffer@);
            assert(buffer_bytes(*dst) =~= d1 + f);
            if with_prefix {
                assert(d0 + encoded_bytes(with_prefix, header@, buffer@) =~= d0 + prefix() + f);
            } else {
                assert(d0 + encoded_bytes(with_prefix, header@, buffer@) =~= d0 + f);
            }
        }
    }
}

/// A frame followed by any bytes decodes to its header and payload and leaves
/// exactly the bytes after it, provided the lengths fit the 32-bit fields.
pub proof fn lemma_decode_encoded_frame(header: Seq<u8>, buffer: Seq<u8>, rest: Seq<u8>)
    requires
        header.len() + buffer.len() <= u32::MAX,
    ensures
        decode_frame(frame_bytes(header, buffer) + rest) == (
            DecodeOutcome::Frame(header, buffer),
            rest,
        ),
{
    let total = (header.len() + buffer.len()) as u32;
    let hl = header.len() as u32;
    lemma_be_roundtrip(total);
    lemma_be_roundtrip(hl);
    let s = frame_bytes(header, buffer) + rest;
    assert(s.take(4) =~= be_bytes(total));
    assert(s.subrange(4, 8) =~= be_bytes(hl));
    assert(be_u32_value(s) == be_u32_value(s.take(4)));
    let r = s.skip(8);
    assert(r =~= header + buffer + rest);
    if buffer.len() > 0 {
        assert(r.take(hl as int) =~= header);
        assert(r.subrange(hl as int, total as int) =~= buffer);
    } else {
        assert(r.take(total as int) =~= header);
        assert(buffer =~= Seq::<u8>::empty());
    }
    assert(r.skip(total as int) =~= rest);
}

/// A fresh codec reading the greeting, a frame and any further bytes gives the
/// frame, remembers the greeting and leaves the further bytes.
pub proof fn lemma_decode_greeting_then_frame(header: Seq<u8>, buffer: Seq<u8>, rest: Seq<u8>)
    requires
        header.len() + buffer.len() <= u32::MAX,
    ensures
        decode_spec(false, encoded_bytes(true, header, buffer) + rest) == (
            DecodeOutcome::Frame(header, buffer),
            true,
            rest,
        ),
{
    let s = encoded_bytes(true, header, buffer) + rest;
    assert(s.take(PREFIX_LEN as int) =~= prefix());
    assert(s.skip(PREFIX_LEN as int) =~= frame_bytes(header, buffer) + rest);
    lemma_decode_encoded_frame(header, buffer, rest);
}

/// Any strict beginning of a frame is left untouched: decoding asks for more
/// bytes, so a frame split across reads is cut once it is complete.
pub proof fn lemma_partial_frame_waits(header: Seq<u8>, buffer: Seq<u8>, k: int)
    requires
        header.len() + buffer.len() <= u32::MAX,
        0 <= k < frame_bytes(header, buffer).len(),
    ensures
        decode_frame(frame_bytes(header, buffer).take(k)) == (
            DecodeOutcome::NeedMore,
            frame_bytes(header, buffer).take(k),
        ),
{
    let total = (header.len() + buffer.len()) as u32;
    lemma_be_roundtrip(total);
    let s = frame_bytes(header, buffer).take(k);
    if k >= 4 {
        assert(s.take(4) =~= be_bytes(total));
        assert(be_u32_value(s) == be_u32_value(s.take(4)));
    }
}

/// The greeting is only consumed once: after it has been seen, the same bytes
/// that a fresh codec accepted after the greeting decode the same way.
pub proof fn lemma_greeting_consumed_once(s: Seq<u8>)
    ensures
        decode_spec(false, prefix() + s).1,
        decode_spec(false, prefix() + s).0 == decode_spec(true, s).0,
        decode_spec(false, prefix() + s).2 == decode_spec(true, s).2,
{
    let t = prefix() + s;
    assert(t.take(PREFIX_LEN as int) =~= prefix());
    assert(t.skip(PREFIX_LEN as int) =~= s);
}

} // verus!

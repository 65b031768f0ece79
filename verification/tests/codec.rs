use bytes::BytesMut;
use telepathy::{CodecError, ConnectCodec};

const GREETING: &[u8] = b"ACTIX/1.0\r\n";

#[test]
fn decode_waits_for_the_greeting() {
    let mut codec = ConnectCodec::new();
    let mut src = BytesMut::from(&b"ACTIX/1"[..]);
    assert!(matches!(codec.decode(&mut src), Ok(None)));
    assert_eq!(&src[..], b"ACTIX/1");
    assert!(!codec.prefix);
}

#[test]
fn decode_rejects_a_wrong_greeting() {
    let mut codec = ConnectCodec::new();
    let mut src = BytesMut::from(&b"HELLO/1.0\r\nxyz"[..]);
    assert!(matches!(codec.decode(&mut src), Err(CodecError::PrefixMismatch)));
    assert_eq!(src.len(), 14);
    assert!(!codec.prefix);
}

#[test]
fn encode_writes_greeting_and_big_endian_lengths() {
    let mut codec = ConnectCodec::new();
    let mut dst = BytesMut::new();
    codec.encode(true, &[7, 8, 9], &[], &mut dst);
    let mut expected = GREETING.to_vec();
    expected.extend_from_slice(&[0, 0, 0, 3, 0, 0, 0, 3, 7, 8, 9]);
    assert_eq!(&dst[..], &expected[..]);
}

#[test]
fn encode_message_frame_counts_header_and_payload() {
    let mut codec = ConnectCodec::new();
    let mut dst = BytesMut::new();
    let payload = vec![1u8; 300];
    codec.encode(false, &[5, 6], &payload, &mut dst);
    assert_eq!(&dst[0..8], &[0, 0, 1, 46, 0, 0, 0, 2]);
    assert_eq!(dst.len(), 8 + 2 + 300);
}

#[test]
fn greeting_and_frame_roundtrip() {
    let mut writer = ConnectCodec::new();
    let mut reader = ConnectCodec::new();
    let mut wire = BytesMut::new();
    writer.encode(true, &[10, 20, 30], &[], &mut wire);
    let frame = reader.decode(&mut wire).unwrap().unwrap();
    assert_eq!(frame.header, vec![10, 20, 30]);
    assert!(frame.buffer.is_empty());
    assert!(reader.prefix);
    assert_eq!(wire.len(), 0);
}

#[test]
fn message_frame_roundtrip_keeps_following_bytes() {
    let mut writer = ConnectCodec::new();
    let mut reader = ConnectCodec { prefix: true };
    let mut wire = BytesMut::new();
    writer.encode(false, &[1, 2], &[3, 4, 5, 6], &mut wire);
    writer.encode(false, &[9], &[], &mut wire);
    let first = reader.decode(&mut wire).unwrap().unwrap();
    assert_eq!(first.header, vec![1, 2]);
    assert_eq!(first.buffer, vec![3, 4, 5, 6]);
    let second = reader.decode(&mut wire).unwrap().unwrap();
    assert_eq!(second.header, vec![9]);
    assert!(second.buffer.is_empty());
    assert!(matches!(reader.decode(&mut wire), Ok(None)));
}

#[test]
fn partial_frame_waits_then_completes() {
    let mut writer = ConnectCodec::new();
    let mut reader = ConnectCodec { prefix: true };
    let mut whole = BytesMut::new();
    writer.encode(false, &[1, 2, 3], &[4], &mut whole);
    let bytes = whole.to_vec();
    let mut wire = BytesMut::from(&bytes[..6]);
    assert!(matches!(reader.decode(&mut wire), Ok(None)));
    assert_eq!(wire.len(), 6);
    wire.extend_from_slice(&bytes[6..]);
    let frame = reader.decode(&mut wire).unwrap().unwrap();
    assert_eq!(frame.header, vec![1, 2, 3]);
    assert_eq!(frame.buffer, vec![4]);
}

#[test]
fn header_length_at_least_size_reads_plain_frame() {
    let mut reader = ConnectCodec { prefix: true };
    let mut wire = BytesMut::from(&[0u8, 0, 0, 2, 0, 0, 0, 9, 42, 43, 44][..]);
    let frame = reader.decode(&mut wire).unwrap().unwrap();
    assert_eq!(frame.header, vec![42, 43]);
    assert!(frame.buffer.is_empty());
    assert_eq!(&wire[..], &[44]);
}

#[test]
fn greeting_is_consumed_once() {
    let mut reader = ConnectCodec::new();
    let mut wire = BytesMut::from(GREETING);
    assert!(matches!(reader.decode(&mut wire), Ok(None)));
    assert!(reader.prefix);
    assert_eq!(wire.len(), 0);
}

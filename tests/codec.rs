use tls_framing::codec::{decode_u32, encode_u32, DecodeOutcome};

#[test]
fn encodes_big_endian() {
    assert_eq!(encode_u32(0x01020304), vec![1, 2, 3, 4]);
    assert_eq!(encode_u32(0), vec![0, 0, 0, 0]);
    assert_eq!(encode_u32(u32::MAX), vec![255, 255, 255, 255]);
    assert_eq!(encode_u32(256), vec![0, 0, 1, 0]);
}

#[test]
fn decodes_big_endian_with_trailing_bytes() {
    assert_eq!(decode_u32(&[0xDE, 0xAD, 0xBE, 0xEF, 7]), (DecodeOutcome::Complete(4), Some(0xDEADBEEF)));
    assert_eq!(decode_u32(&[0, 0, 1, 0]), (DecodeOutcome::Complete(4), Some(256)));
}

#[test]
fn short_buffers_are_incomplete() {
    assert_eq!(decode_u32(&[]), (DecodeOutcome::Incomplete, None));
    assert_eq!(decode_u32(&[1, 2, 3]), (DecodeOutcome::Incomplete, None));
}

#[test]
fn round_trip() {
    for v in [0u32, 1, 255, 256, 0x01020304, 0xDEADBEEF, u32::MAX] {
        let mut bytes = encode_u32(v);
        assert_eq!(decode_u32(&bytes), (DecodeOutcome::Complete(4), Some(v)));
        bytes.extend([1, 2, 3]);
        assert_eq!(decode_u32(&bytes), (DecodeOutcome::Complete(4), Some(v)));
    }
}

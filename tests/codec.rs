use dove::codec::{bytes_to_i64, bytes_to_u64, decode_i64, decode_u64, i64_to_bytes, u64_to_bytes, CodecError};

#[test]
fn u64_round_trip_edges() {
    for x in [0u64, 1, 255, 256, 0x0510D05E, u64::MAX - 1, u64::MAX] {
        assert_eq!(bytes_to_u64(&u64_to_bytes(x)), x);
    }
}

#[test]
fn i64_round_trip_edges() {
    for x in [0i64, 1, -1, i64::MIN, i64::MIN + 1, i64::MAX, -1234567890123] {
        assert_eq!(bytes_to_i64(&i64_to_bytes(x)), x);
    }
}

#[test]
fn encoding_is_little_endian_everywhere() {
    assert_eq!(u64_to_bytes(0x0102030405060708), [8, 7, 6, 5, 4, 3, 2, 1]);
    assert_eq!(u64_to_bytes(0x0510D05E), [0x5E, 0xD0, 0x10, 0x05, 0, 0, 0, 0]);
    assert_eq!(i64_to_bytes(-1), [0xff; 8]);
    assert_eq!(i64_to_bytes(i64::MIN), [0, 0, 0, 0, 0, 0, 0, 0x80]);
    assert_eq!(bytes_to_u64(&[1, 0, 0, 0, 0, 0, 0, 0]), 1);
    assert_eq!(bytes_to_i64(&[0xfe, 0xff, 0xff, 0xff, 0xff, 0xff, 0xff, 0xff]), -2);
}

#[test]
fn decode_short_buffer_fails() {
    assert_eq!(decode_u64(&[1, 2, 3]), Err(CodecError::ShortBuffer));
    assert_eq!(decode_i64(&[]), Err(CodecError::ShortBuffer));
    assert_eq!(decode_u64(&[0, 0, 0, 0, 0, 0, 0]), Err(CodecError::ShortBuffer));
}

#[test]
fn decode_reads_first_eight_bytes() {
    assert_eq!(decode_u64(&[2, 1, 0, 0, 0, 0, 0, 0, 9, 9]), Ok(258));
    assert_eq!(decode_i64(&[0xff, 0xff, 0xff, 0xff, 0xff, 0xff, 0xff, 0xff]), Ok(-1));
}

use lolserialize::leb128::{decode_leb128_u64, encode_leb128_u64, DecodeError};

fn encode(v: u64) -> Vec<u8> {
    let mut buf = Vec::new();
    encode_leb128_u64(v, &mut buf);
    buf
}

#[test]
fn encodes_small_values_in_one_byte() {
    assert_eq!(encode(0), vec![0x00]);
    assert_eq!(encode(1), vec![0x01]);
    assert_eq!(encode(127), vec![0x7f]);
}

#[test]
fn encodes_multi_byte_values() {
    assert_eq!(encode(128), vec![0x80, 0x01]);
    assert_eq!(encode(300), vec![0xac, 0x02]);
    assert_eq!(encode(16384), vec![0x80, 0x80, 0x01]);
    assert_eq!(
        encode(u64::MAX),
        vec![0xff, 0xff, 0xff, 0xff, 0xff, 0xff, 0xff, 0xff, 0xff, 0x01]
    );
}

#[test]
fn encoding_appends_to_existing_bytes() {
    let mut buf = vec![9, 9];
    encode_leb128_u64(300, &mut buf);
    assert_eq!(buf, vec![9, 9, 0xac, 0x02]);
}

#[test]
fn decode_roundtrips_with_trailing_bytes() {
    for v in [0u64, 1, 127, 128, 255, 300, 16383, 16384, 1 << 35, u64::MAX - 1, u64::MAX] {
        let mut buf = encode(v);
        let len = buf.len();
        buf.extend_from_slice(&[0xaa, 0xbb]);
        assert_eq!(decode_leb128_u64(&buf, 0), Ok((v, len)));
    }
}

#[test]
fn decodes_from_a_position() {
    let buf = vec![0x05, 0xac, 0x02, 0x07];
    assert_eq!(decode_leb128_u64(&buf, 1), Ok((300, 3)));
    assert_eq!(decode_leb128_u64(&buf, 3), Ok((7, 4)));
}

#[test]
fn decode_accepts_non_minimal_encodings() {
    assert_eq!(decode_leb128_u64(&[0x80, 0x00], 0), Ok((0, 2)));
}

#[test]
fn decode_reports_end_of_input() {
    assert_eq!(decode_leb128_u64(&[], 0), Err(DecodeError::UnexpectedEof));
    assert_eq!(decode_leb128_u64(&[0x80], 0), Err(DecodeError::UnexpectedEof));
    assert_eq!(decode_leb128_u64(&[0x01], 1), Err(DecodeError::UnexpectedEof));
}

#[test]
fn decode_reports_overflow() {
    assert_eq!(decode_leb128_u64(&[0xff; 10], 0), Err(DecodeError::Overflow));
    let mut buf = vec![0xff; 9];
    buf.push(0x02);
    assert_eq!(decode_leb128_u64(&buf, 0), Err(DecodeError::Overflow));
    let mut buf = vec![0x80; 9];
    buf.push(0x01);
    assert_eq!(decode_leb128_u64(&buf, 0), Ok((1u64 << 63, 10)));
}

#[test]
fn decode_error_messages() {
    assert_eq!(DecodeError::UnexpectedEof.message(), "unexpected end of input");
    assert_eq!(DecodeError::Overflow.message(), "LEB128 value overflows 64 bits");
}

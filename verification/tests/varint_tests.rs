use fst_reader::error::FstError;
use fst_reader::varint::{
    decode_svarint, decode_varint, encode_svarint, encode_varint, read_svarint, read_varint,
    varint_length,
};

fn check_round_trip_varint(value: u64) {
    let mut output: Vec<u8> = vec![0; 10];
    encode_varint(&mut output, value);
    assert_eq!(decode_varint(&output), Some(value));
}

#[test]
fn test_round_trip_varint() {
    for value in 0..0xFFFF {
        check_round_trip_varint(value);
    }
    for value in (0xFFFF..0xFFFFFF).step_by(9) {
        check_round_trip_varint(value);
    }
    for value in (0xFFFFFF..0xFFFFFFFF).step_by(2135734) {
        check_round_trip_varint(value);
    }
    for value in 0xFFFF0000..=0xFFFFFFFF {
        check_round_trip_varint(value);
    }
}

fn check_round_trip_svarint(value: i64) {
    let mut output: Vec<u8> = vec![0; 10];
    encode_svarint(&mut output, value);
    assert_eq!(decode_svarint(&output), Some(value));
}

#[test]
fn test_round_trip_svarint() {
    for value in 0..0xFFFF {
        check_round_trip_svarint(value);
    }
    for value in (0xFFFF..0xFFFFFF).step_by(9) {
        check_round_trip_svarint(value);
    }
    for value in -0xFFFF..0 {
        check_round_trip_svarint(value);
    }
    for value in (-0xFFFFFF..0xFFFF).step_by(9) {
        check_round_trip_svarint(value);
    }
}

/// Manually calculated examples (see the figures in the specification).
#[test]
fn test_manual_examples() {
    let mut output: Vec<u8> = vec![0; 10];
    assert_eq!(encode_varint(&mut output, 3141), 2);
    assert_eq!(output, [0xC5, 0x18, 0, 0, 0, 0, 0, 0, 0, 0]);

    let mut output: Vec<u8> = vec![0; 10];
    assert_eq!(encode_svarint(&mut output, -15429), 3);
    assert_eq!(output, [0xBB, 0x87, 0x7F, 0, 0, 0, 0, 0, 0, 0]);
}

#[test]
fn test_varint_length_matches_encoding() {
    for value in [0u64, 1, 127, 128, 3141, 0xFFFF, 0xFFFFFFFF, u64::MAX] {
        let mut output: Vec<u8> = vec![0; 10];
        let n = encode_varint(&mut output, value);
        assert_eq!(varint_length(value) as usize, n);
    }
    assert_eq!(varint_length(3141), 2);
    assert_eq!(varint_length(0), 1);
    assert_eq!(varint_length(u64::MAX), 10);
}

#[test]
fn test_varint_overflow_fails() {
    // Ten continuation bytes never reach a terminator: the decode fails.
    let ten = [0x80u8; 10];
    assert_eq!(decode_varint(&ten), None);
    assert_eq!(decode_svarint(&ten), None);

    // With more input available the stream reader reports the overflow.
    let eleven = [0x80u8; 11];
    let mut pos = 0;
    assert_eq!(read_varint(&eleven, &mut pos), Err(FstError::Malformed));
    let mut pos = 0;
    assert_eq!(read_svarint(&eleven, &mut pos), Err(FstError::Malformed));

    // Ten continuation bytes at the end of input run out instead.
    let mut pos = 0;
    assert_eq!(read_varint(&ten, &mut pos), Err(FstError::Io));
}

#[test]
fn test_read_varint_consumes_exactly_its_encoding() {
    let mut buf: Vec<u8> = vec![0; 10];
    let n = encode_varint(&mut buf, 3141);
    buf.truncate(n);
    buf.push(0x55);
    let mut pos = 0;
    assert_eq!(read_varint(&buf, &mut pos), Ok(3141));
    assert_eq!(pos, n);
}

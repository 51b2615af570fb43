use fst_reader::error::FstError;
use fst_reader::geometry::VarLength;
use fst_reader::valvec::Value;
use fst_reader::vcblock::{read_wave_slices, WaveSlice};
use fst_reader::wave::{value_from_ascii, value_from_packed_bits};

#[test]
fn test_ascii_value_packs_four_symbols_per_byte() {
    // '0' -> 00, '1' -> 01, 'x' -> 10, 'z' -> 11, LSB-first groups.
    let data = b"01xz";
    let mut pos = 0;
    let v = value_from_ascii(data, &mut pos, VarLength::Bits(4)).unwrap();
    assert_eq!(pos, 4);
    assert_eq!(v, Value(vec![0b11100100]));

    let data = b"Z";
    let mut pos = 0;
    let v = value_from_ascii(data, &mut pos, VarLength::Bits(1)).unwrap();
    assert_eq!(v, Value(vec![3]));

    // A fifth symbol spills into a second byte.
    let data = b"1111X";
    let mut pos = 0;
    let v = value_from_ascii(data, &mut pos, VarLength::Bits(5)).unwrap();
    assert_eq!(v, Value(vec![0b01010101, 0b00000010]));
}

#[test]
fn test_ascii_value_rejects_nine_valued_logic() {
    let data = b"01h1";
    let mut pos = 0;
    assert_eq!(
        value_from_ascii(data, &mut pos, VarLength::Bits(4)),
        Err(FstError::UnsupportedFormat)
    );
    let mut pos = 0;
    assert_eq!(value_from_ascii(b"01", &mut pos, VarLength::Bits(4)), Err(FstError::Io));
}

#[test]
fn test_ascii_value_real_keeps_raw_bytes() {
    let data = [1u8, 2, 3, 4, 5, 6, 7, 8, 99];
    let mut pos = 0;
    let v = value_from_ascii(&data, &mut pos, VarLength::Real).unwrap();
    assert_eq!(pos, 8);
    assert_eq!(v, Value(vec![1, 2, 3, 4, 5, 6, 7, 8]));
}

#[test]
fn test_packed_bits_interleave() {
    // One byte 0b1010_0110 expands to two bytes: low nibble 0110 then high
    // nibble 1010, each bit interleaved with a zero.
    let data = [0b10100110u8];
    let mut pos = 0;
    let v = value_from_packed_bits(&data, &mut pos, 8).unwrap();
    assert_eq!(v, Value(vec![0b00010100, 0b01000100]));

    // Four bits only keep the low-nibble byte.
    let mut pos = 0;
    let v = value_from_packed_bits(&data, &mut pos, 4).unwrap();
    assert_eq!(v, Value(vec![0b00010100]));
}

#[test]
fn test_position_table_resolution() {
    // Codes: zero-run of 2, offset delta 7, dynamic alias to var 2, repeat
    // of the previous alias, offset delta 9.  The second offset closes the
    // slice shared by vars 2..=4 at 15; the final slice runs to the region
    // length.
    let table = [0x04u8, 0x0F, 0x7B, 0x01, 0x13];
    let mut pos = 0;
    let slices = read_wave_slices(&table, &mut pos, 6, 20).unwrap();
    assert_eq!(
        slices,
        vec![
            WaveSlice { start: 0, end: 0 },
            WaveSlice { start: 0, end: 0 },
            WaveSlice { start: 6, end: 15 },
            WaveSlice { start: 6, end: 15 },
            WaveSlice { start: 6, end: 15 },
            WaveSlice { start: 15, end: 20 },
        ]
    );
}

#[test]
fn test_position_table_offsets_tile_the_region() {
    // Offsets with deltas 1, 4, 3: the slices tile [0, L) and their lengths
    // sum to the whole region.
    let table = [0x03u8, 0x09, 0x07];
    let mut pos = 0;
    let slices = read_wave_slices(&table, &mut pos, 3, 10).unwrap();
    assert_eq!(
        slices,
        vec![
            WaveSlice { start: 0, end: 4 },
            WaveSlice { start: 4, end: 7 },
            WaveSlice { start: 7, end: 10 },
        ]
    );
    let total: u64 = slices.iter().map(|s| s.end - s.start).sum();
    assert_eq!(total, 10);
}

#[test]
fn test_position_table_forward_alias_fails() {
    // An alias to the current variable itself points forward: malformed.
    // Value -1 (alias target 0) as the very first code.
    let table = [0x7Fu8];
    let mut pos = 0;
    assert_eq!(read_wave_slices(&table, &mut pos, 1, 10), Err(FstError::Malformed));
}

#[test]
fn test_position_table_repeat_without_alias_fails() {
    // A repeat-previous-alias code with no alias before it.
    let table = [0x01u8];
    let mut pos = 0;
    assert_eq!(read_wave_slices(&table, &mut pos, 1, 10), Err(FstError::Malformed));
}

use fst_reader::error::FstError;
use fst_reader::fst::{BlackoutType, Fst, VarId};
use fst_reader::geometry::VarLength;
use fst_reader::valvec::Value;
use fst_reader::varint::encode_varint;

fn be64(v: u64) -> Vec<u8> {
    v.to_be_bytes().to_vec()
}

fn enc_varint(v: u64) -> Vec<u8> {
    let mut buf: Vec<u8> = vec![0; 10];
    let n = encode_varint(&mut buf, v);
    buf.truncate(n);
    buf
}

/// A 321-byte header body wrapped as an HDR block.
fn header_block(num_vars: u64, num_vc_blocks: u64) -> Vec<u8> {
    let mut body: Vec<u8> = Vec::new();
    body.extend(be64(0)); // start_time
    body.extend(be64(100)); // end_time
    body.extend(0x4005BF0A8B145769u64.to_le_bytes()); // real endianness
    body.extend(be64(0)); // writer_memory_use
    body.extend(be64(1)); // num_scopes
    body.extend(be64(num_vars)); // num_hierarchy_vars
    body.extend(be64(num_vars)); // num_vars
    body.extend(be64(num_vc_blocks)); // num_vc_blocks
    body.push(0); // timescale
    let mut writer = b"verus fst writer".to_vec();
    writer.resize(128, 0);
    body.extend(writer);
    let mut date = b"today".to_vec();
    date.resize(26, 0);
    body.extend(date);
    body.extend(vec![0u8; 93]); // reserved
    body.push(0); // filetype
    body.extend(be64(0)); // timezero
    assert_eq!(body.len(), 321);
    let mut block = vec![0u8]; // HDR
    block.extend(be64(8 + 321));
    block.extend(body);
    block
}

/// A raw (uncompressed) geometry block from varint entries.
fn geom_block(entries: &[u64]) -> Vec<u8> {
    let mut payload: Vec<u8> = Vec::new();
    for &e in entries {
        payload.extend(enc_varint(e));
    }
    let mut block = vec![3u8]; // GEOM
    block.extend(be64(8 + 16 + payload.len() as u64));
    block.extend(be64(payload.len() as u64)); // uncompressed == raw
    block.extend(be64(entries.len() as u64)); // count
    block.extend(payload);
    block
}

fn scope_open(name: &str) -> Vec<u8> {
    let mut r = vec![254u8, 1];
    r.extend(name.as_bytes());
    r.push(0);
    r.extend(b"comp\0".to_vec());
    r
}

fn var_decl(name: &str, length: u64, alias: u64) -> Vec<u8> {
    let mut r = vec![0u8, 0]; // var type, direction
    r.extend(name.as_bytes());
    r.push(0);
    r.extend(enc_varint(length));
    r.extend(enc_varint(alias));
    r
}

/// A raw hierarchy block from a record stream.
fn hier_block(records: &[u8]) -> Vec<u8> {
    let mut block = vec![4u8]; // HIER
    block.extend(be64(8 + 8 + records.len() as u64));
    block.extend(be64(records.len() as u64));
    block.extend(records);
    block
}

/// A value-change block (the dyn-alias-2 kind) from its pieces.  The waves
/// region holds each non-empty variable's `[varint length][bytes]` entry;
/// the position table codes must describe it.
fn vc_block(
    initial_values: &[u8],
    waves_region: &[u8],
    position_table: &[u8],
    time_deltas: &[u64],
    packtype: u8,
) -> Vec<u8> {
    let mut body: Vec<u8> = Vec::new();
    body.extend(be64(0)); // block start_time
    body.extend(be64(100)); // block end_time
    body.extend(be64(0)); // memory_required
    body.extend(enc_varint(initial_values.len() as u64)); // bits uncompressed
    body.extend(enc_varint(initial_values.len() as u64)); // bits compressed (raw)
    if initial_values.is_empty() {
        body.extend(enc_varint(0)); // bits count
    } else {
        body.extend(enc_varint(initial_values.len() as u64)); // one 1-bit var each
    }
    body.extend(initial_values);
    body.extend(enc_varint(1)); // waves_count (informational)
    body.push(packtype);
    body.extend(waves_region);
    body.extend(position_table);
    body.extend(be64(position_table.len() as u64));
    let mut time_data: Vec<u8> = Vec::new();
    for &d in time_deltas {
        time_data.extend(enc_varint(d));
    }
    body.extend(&time_data);
    body.extend(be64(time_data.len() as u64)); // time uncompressed
    body.extend(be64(time_data.len() as u64)); // time compressed (raw)
    body.extend(be64(time_deltas.len() as u64)); // time count
    let mut block = vec![8u8]; // VCDATA_DYN_ALIAS2
    block.extend(be64(8 + body.len() as u64));
    block.extend(body);
    block
}

/// One header, geometry declaring 3 variables {1-bit, 4-bit, real}, a
/// hierarchy with one scope containing them, and no value-change blocks.
#[test]
fn test_load_without_value_changes() {
    let mut image = header_block(3, 0);
    image.extend(geom_block(&[1, 4, 0]));
    let mut records = scope_open("top");
    records.extend(var_decl("a", 1, 0));
    records.extend(var_decl("b", 4, 0));
    records.extend(var_decl("r", 64, 0));
    records.push(255);
    image.extend(hier_block(&records));
    let fst = Fst::load(image).unwrap();
    assert_eq!(fst.header.num_vars, 3);
    assert_eq!(fst.var_lengths.length(VarId(0)), VarLength::Bits(1));
    assert_eq!(fst.var_lengths.length(VarId(1)), VarLength::Bits(4));
    assert_eq!(fst.var_lengths.length(VarId(2)), VarLength::Real);
    assert_eq!(fst.hierarchy.scopes.len(), 1);
    assert_eq!(fst.hierarchy.scopes[0].name, "top");
    assert_eq!(fst.hierarchy.scopes[0].vars.len(), 3);
    for v in 0..3 {
        let wave = fst.read_wave(VarId(v)).unwrap();
        assert!(wave.is_empty());
    }
    assert_eq!(fst.header.writer_string(), "verus fst writer");
    assert_eq!(fst.header.date_string(), "today");
}

/// A single value-change block with a 1-bit signal changing 0 -> 1 at time
/// 10 and 1 -> 0 at time 20.
#[test]
fn test_single_bit_wave() {
    let mut image = header_block(2, 1);
    // Wave entry for var 0: raw (varint 0), then two single-bit changes:
    // (delta 0, value 1) = 0b10 and (delta 1, value 0) = 0b100.
    let mut waves: Vec<u8> = Vec::new();
    waves.extend(enc_varint(0));
    waves.push(0b10);
    waves.push(0b100);
    // Position table: var 0 at offset delta 1 (slice starts at 0), var 1 a
    // zero run of 1.
    let table = [0x03u8, 0x02];
    image.extend(vc_block(&[], &waves, &table, &[10, 10], b'Z'));
    image.extend(geom_block(&[1, 1]));
    let mut records = scope_open("top");
    records.extend(var_decl("a", 1, 0));
    records.extend(var_decl("b", 1, 0));
    records.push(255);
    image.extend(hier_block(&records));
    let fst = Fst::load(image).unwrap();
    let wave = fst.read_wave(VarId(0)).unwrap();
    assert_eq!(wave, vec![(10, Value(vec![1])), (20, Value(vec![0]))]);
    let wave1 = fst.read_wave(VarId(1)).unwrap();
    assert!(wave1.is_empty());
    assert_eq!(fst.value_change_blocks.len(), 1);
    assert_eq!(fst.value_change_blocks[0].times, vec![10, 20]);
}

/// An alias record with `alias` = 2 shares VarId 1; later declarations keep
/// allocating fresh ids.
#[test]
fn test_hierarchy_alias_shares_id() {
    let mut image = header_block(3, 0);
    image.extend(geom_block(&[1, 1, 1]));
    let mut records = scope_open("top");
    records.extend(var_decl("a", 1, 0));
    records.extend(var_decl("b", 1, 0));
    records.extend(var_decl("b_alias", 1, 2));
    records.extend(var_decl("c", 1, 0));
    records.push(255);
    image.extend(hier_block(&records));
    let fst = Fst::load(image).unwrap();
    let vars = &fst.hierarchy.scopes[0].vars;
    assert_eq!(vars.len(), 4);
    assert_eq!(vars[0].id, VarId(0));
    assert!(!vars[0].is_alias);
    assert_eq!(vars[1].id, VarId(1));
    assert_eq!(vars[2].id, VarId(1));
    assert!(vars[2].is_alias);
    assert_eq!(vars[3].id, VarId(2));
    assert!(!vars[3].is_alias);
}

/// Attribute records are kept on their scope.
#[test]
fn test_hierarchy_attributes_recorded() {
    let mut image = header_block(1, 0);
    image.extend(geom_block(&[1]));
    let mut records = scope_open("top");
    records.push(252); // attribute begin
    records.push(3); // type
    records.push(7); // subtype
    records.extend(b"note\0");
    records.extend(enc_varint(99));
    records.push(253); // attribute end
    records.extend(var_decl("a", 1, 0));
    records.push(255);
    image.extend(hier_block(&records));
    let fst = Fst::load(image).unwrap();
    let attrs = &fst.hierarchy.scopes[0].attrs;
    assert_eq!(attrs.len(), 1);
    assert_eq!(attrs[0].type_, 3);
    assert_eq!(attrs[0].subtype, 7);
    assert_eq!(attrs[0].name, "note");
    assert_eq!(attrs[0].arg, 99);
    assert_eq!(attrs[0].arg_from_name, 0);
}

/// A file whose first block is anything but HDR fails as malformed.
#[test]
fn test_first_block_must_be_header() {
    let image = geom_block(&[1]);
    assert_eq!(Fst::load(image).unwrap_err(), FstError::Malformed);
}

#[test]
fn test_bad_sentinel_is_not_an_fst_file() {
    let mut image = header_block(0, 0);
    // Corrupt the little-endian real-endianness field (offset 9 + 16).
    image[9 + 16] = 0xAA;
    assert_eq!(Fst::load(image).unwrap_err(), FstError::NotAnFstFile);
}

#[test]
fn test_legacy_blocks_are_unsupported() {
    let mut image = header_block(0, 0);
    image.push(1); // VCDATA
    image.extend(be64(8));
    assert_eq!(Fst::load(image).unwrap_err(), FstError::UnsupportedFormat);

    let mut image = header_block(0, 0);
    image.push(254); // ZWRAPPER
    image.extend(be64(8));
    assert_eq!(Fst::load(image).unwrap_err(), FstError::UnsupportedFormat);
}

#[test]
fn test_unknown_block_type_is_malformed() {
    let mut image = header_block(0, 0);
    image.push(9);
    image.extend(be64(8));
    assert_eq!(Fst::load(image).unwrap_err(), FstError::Malformed);
}

#[test]
fn test_duplicate_geometry_is_malformed() {
    let mut image = header_block(1, 0);
    image.extend(geom_block(&[1]));
    image.extend(geom_block(&[1]));
    let mut records = scope_open("top");
    records.extend(var_decl("a", 1, 0));
    records.push(255);
    image.extend(hier_block(&records));
    assert_eq!(Fst::load(image).unwrap_err(), FstError::Malformed);
}

#[test]
fn test_value_change_block_before_header_is_malformed() {
    let mut image = vec![8u8];
    image.extend(be64(8));
    assert_eq!(Fst::load(image).unwrap_err(), FstError::Malformed);
}

#[test]
fn test_truncated_file_is_io() {
    let mut image = header_block(0, 0);
    image.truncate(100);
    assert_eq!(Fst::load(image).unwrap_err(), FstError::Io);
}

#[test]
fn test_missing_geometry_is_malformed() {
    let mut image = header_block(0, 0);
    let mut records = scope_open("top");
    records.push(255);
    image.extend(hier_block(&records));
    assert_eq!(Fst::load(image).unwrap_err(), FstError::Malformed);
}

#[test]
fn test_blackout_records() {
    let mut image = header_block(0, 0);
    image.extend(geom_block(&[]));
    let mut records = scope_open("top");
    records.push(255);
    image.extend(hier_block(&records));
    let mut body: Vec<u8> = Vec::new();
    body.extend(enc_varint(2));
    body.push(1);
    body.extend(enc_varint(5));
    body.push(0);
    body.extend(enc_varint(7));
    let mut block = vec![2u8]; // BLACKOUT
    block.extend(be64(8 + body.len() as u64));
    block.extend(body);
    image.extend(block);
    let fst = Fst::load(image).unwrap();
    assert_eq!(
        fst.blackouts,
        vec![(BlackoutType::DumpOn, 5), (BlackoutType::DumpOff, 12)]
    );
}

/// Initial values appear at time 0 before the block's changes.
#[test]
fn test_initial_values() {
    let mut image = header_block(2, 1);
    let mut waves: Vec<u8> = Vec::new();
    waves.extend(enc_varint(0));
    waves.push(0b110); // delta 1, value 1
    let table = [0x03u8, 0x02];
    image.extend(vc_block(b"01", &waves, &table, &[5, 6], b'Z'));
    image.extend(geom_block(&[1, 1]));
    let mut records = scope_open("top");
    records.extend(var_decl("a", 1, 0));
    records.extend(var_decl("b", 1, 0));
    records.push(255);
    image.extend(hier_block(&records));
    let fst = Fst::load(image).unwrap();
    let wave = fst.read_wave(VarId(0)).unwrap();
    // Initial '0' at time 0, then the change to 1 at times[1] = 11.
    assert_eq!(wave, vec![(0, Value(vec![0])), (11, Value(vec![1]))]);
    let wave1 = fst.read_wave(VarId(1)).unwrap();
    assert_eq!(wave1, vec![(0, Value(vec![1]))]);
}

#[test]
fn test_out_of_range_time_index_is_malformed() {
    let mut image = header_block(1, 1);
    let mut waves: Vec<u8> = Vec::new();
    waves.extend(enc_varint(0));
    waves.push(0b10); // delta 0, value 1
    waves.push(0b110); // delta 1 -> index 1, but only one time entry
    let table = [0x03u8];
    image.extend(vc_block(&[], &waves, &table, &[10], b'Z'));
    image.extend(geom_block(&[1]));
    let mut records = scope_open("top");
    records.extend(var_decl("a", 1, 0));
    records.push(255);
    image.extend(hier_block(&records));
    let fst = Fst::load(image).unwrap();
    assert_eq!(fst.read_wave(VarId(0)).unwrap_err(), FstError::Malformed);
}

/// A 4-bit variable with one packed-binary change and one ASCII change.
#[test]
fn test_multi_bit_wave() {
    let mut image = header_block(1, 1);
    let mut waves: Vec<u8> = Vec::new();
    waves.extend(enc_varint(0)); // raw payload
    waves.push(0x00); // varint header: delta 0, binary
    waves.push(0x0A); // packed bits 0b1010
    waves.push(0x03); // varint header: delta 1, ascii
    waves.extend(b"01xz");
    let table = [0x03u8];
    let mut body: Vec<u8> = Vec::new();
    body.extend(be64(0));
    body.extend(be64(100));
    body.extend(be64(0));
    body.extend(enc_varint(0));
    body.extend(enc_varint(0));
    body.extend(enc_varint(0));
    body.extend(enc_varint(1));
    body.push(b'Z');
    body.extend(&waves);
    body.extend(&table);
    body.extend(be64(table.len() as u64));
    let time_data = [enc_varint(7), enc_varint(5)].concat();
    body.extend(&time_data);
    body.extend(be64(time_data.len() as u64));
    body.extend(be64(time_data.len() as u64));
    body.extend(be64(2));
    let mut block = vec![8u8];
    block.extend(be64(8 + body.len() as u64));
    block.extend(body);
    image.extend(block);
    image.extend(geom_block(&[4]));
    let mut records = scope_open("top");
    records.extend(var_decl("bus", 4, 0));
    records.push(255);
    image.extend(hier_block(&records));
    let fst = Fst::load(image).unwrap();
    let wave = fst.read_wave(VarId(0)).unwrap();
    // 0b1010 interleaved: symbols 0,1,0,1; then "01xz" packed.
    assert_eq!(wave, vec![(7, Value(vec![0b01000100])), (12, Value(vec![0b11100100]))]);
}

/// A real variable carries its 8 raw payload bytes through.
#[test]
fn test_real_wave() {
    let mut image = header_block(1, 1);
    let mut waves: Vec<u8> = Vec::new();
    waves.extend(enc_varint(0));
    waves.push(0x00); // varint header: delta 0
    waves.extend([1u8, 2, 3, 4, 5, 6, 7, 8]);
    let table = [0x03u8];
    let mut body: Vec<u8> = Vec::new();
    body.extend(be64(0));
    body.extend(be64(100));
    body.extend(be64(0));
    body.extend(enc_varint(0));
    body.extend(enc_varint(0));
    body.extend(enc_varint(0));
    body.extend(enc_varint(1));
    body.push(b'Z');
    body.extend(&waves);
    body.extend(&table);
    body.extend(be64(table.len() as u64));
    let time_data = enc_varint(42);
    body.extend(&time_data);
    body.extend(be64(time_data.len() as u64));
    body.extend(be64(time_data.len() as u64));
    body.extend(be64(1));
    let mut block = vec![8u8];
    block.extend(be64(8 + body.len() as u64));
    block.extend(body);
    image.extend(block);
    image.extend(geom_block(&[0])); // real
    let mut records = scope_open("top");
    records.extend(var_decl("r", 64, 0));
    records.push(255);
    image.extend(hier_block(&records));
    let fst = Fst::load(image).unwrap();
    let wave = fst.read_wave(VarId(0)).unwrap();
    assert_eq!(wave, vec![(42, Value(vec![1, 2, 3, 4, 5, 6, 7, 8]))]);
}

#[test]
fn test_invalid_var_id_is_malformed() {
    let mut image = header_block(1, 0);
    image.extend(geom_block(&[1]));
    let mut records = scope_open("top");
    records.extend(var_decl("a", 1, 0));
    records.push(255);
    image.extend(hier_block(&records));
    let fst = Fst::load(image).unwrap();
    assert_eq!(fst.read_wave(VarId(5)).unwrap_err(), FstError::Malformed);
}

use fst_reader::error::FstError;
use fst_reader::fst::{Fst, VarId};
use fst_reader::geometry::VarLength;
use fst_reader::valvec::Value;
use fst_reader::varint::encode_varint;

fn be64(v: u64) -> Vec<u8> {
    v.to_be_bytes().to_vec()
}

fn enc_varint(v: u64) -> Vec<u8> {
    let mut buf: Vec<u8> = vec![0; 10];
    let n = encode_varint(&mut buf, v);
    buf.truncate(n);
    buf
}

fn header_block(num_vars: u64, num_vc_blocks: u64) -> Vec<u8> {
    let mut body: Vec<u8> = Vec::new();
    body.extend(be64(0));
    body.extend(be64(100));
    body.extend(0x4005BF0A8B145769u64.to_le_bytes());
    body.extend(be64(0));
    body.extend(be64(1));
    body.extend(be64(num_vars));
    body.extend(be64(num_vars));
    body.extend(be64(num_vc_blocks));
    body.push(0);
    body.extend(vec![0u8; 128]);
    body.extend(vec![0u8; 26]);
    body.extend(vec![0u8; 93]);
    body.push(0);
    body.extend(be64(0));
    let mut block = vec![0u8];
    block.extend(be64(8 + 321));
    block.extend(body);
    block
}

fn zlib_compress(input: &[u8]) -> Vec<u8> {
    let mut c = flate2::Compress::new(flate2::Compression::default(), true);
    let mut out: Vec<u8> = Vec::with_capacity(input.len() + 128);
    c.compress_vec(input, &mut out, flate2::FlushCompress::Finish).unwrap();
    out
}

fn deflate_compress(input: &[u8]) -> Vec<u8> {
    let mut c = flate2::Compress::new(flate2::Compression::default(), false);
    let mut out: Vec<u8> = Vec::with_capacity(input.len() + 128);
    c.compress_vec(input, &mut out, flate2::FlushCompress::Finish).unwrap();
    out
}

fn scope_open(name: &str) -> Vec<u8> {
    let mut r = vec![254u8, 1];
    r.extend(name.as_bytes());
    r.push(0);
    r.extend(b"c\0".to_vec());
    r
}

fn var_decl(name: &str, length: u64) -> Vec<u8> {
    let mut r = vec![0u8, 0];
    r.extend(name.as_bytes());
    r.push(0);
    r.extend(enc_varint(length));
    r.extend(enc_varint(0));
    r
}

fn raw_hier_block(records: &[u8]) -> Vec<u8> {
    let mut block = vec![4u8];
    block.extend(be64(8 + 8 + records.len() as u64));
    block.extend(be64(records.len() as u64));
    block.extend(records);
    block
}

fn raw_geom_block(entries: &[u64]) -> Vec<u8> {
    let mut payload: Vec<u8> = Vec::new();
    for &e in entries {
        payload.extend(enc_varint(e));
    }
    let mut block = vec![3u8];
    block.extend(be64(8 + 16 + payload.len() as u64));
    block.extend(be64(payload.len() as u64));
    block.extend(be64(entries.len() as u64));
    block.extend(payload);
    block
}

/// A value-change block whose single variable owns the whole waves region.
fn one_var_vc_block(waves_region: &[u8], time_deltas: &[u64], packtype: u8) -> Vec<u8> {
    let mut body: Vec<u8> = Vec::new();
    body.extend(be64(0));
    body.extend(be64(100));
    body.extend(be64(0));
    body.extend(enc_varint(0));
    body.extend(enc_varint(0));
    body.extend(enc_varint(0));
    body.extend(enc_varint(1));
    body.push(packtype);
    body.extend(waves_region);
    let table = [0x03u8]; // offset delta 1: the slice covers the region
    body.extend(&table);
    body.extend(be64(table.len() as u64));
    let mut time_data: Vec<u8> = Vec::new();
    for &d in time_deltas {
        time_data.extend(enc_varint(d));
    }
    body.extend(&time_data);
    body.extend(be64(time_data.len() as u64));
    body.extend(be64(time_data.len() as u64));
    body.extend(be64(time_deltas.len() as u64));
    let mut block = vec![8u8];
    block.extend(be64(8 + body.len() as u64));
    block.extend(body);
    block
}

fn one_var_image(waves_region: &[u8], time_deltas: &[u64], packtype: u8) -> Vec<u8> {
    let mut image = header_block(1, 1);
    image.extend(one_var_vc_block(waves_region, time_deltas, packtype));
    image.extend(raw_geom_block(&[1]));
    let mut records = scope_open("top");
    records.extend(var_decl("a", 1));
    records.push(255);
    image.extend(raw_hier_block(&records));
    image
}

/// The geometry table decodes through zlib when its lengths differ.
#[test]
fn test_zlib_compressed_geometry() {
    let entries = [enc_varint(1), enc_varint(4), enc_varint(0)].concat();
    let comp = zlib_compress(&entries);
    assert_ne!(comp.len(), entries.len());
    let mut block = vec![3u8];
    block.extend(be64(8 + 16 + comp.len() as u64));
    block.extend(be64(entries.len() as u64));
    block.extend(be64(3));
    block.extend(&comp);

    let mut image = header_block(3, 0);
    image.extend(block);
    let mut records = scope_open("top");
    records.extend(var_decl("a", 1));
    records.extend(var_decl("b", 4));
    records.extend(var_decl("r", 64));
    records.push(255);
    image.extend(raw_hier_block(&records));
    let fst = Fst::load(image).unwrap();
    assert_eq!(fst.var_lengths.length(VarId(0)), VarLength::Bits(1));
    assert_eq!(fst.var_lengths.length(VarId(1)), VarLength::Bits(4));
    assert_eq!(fst.var_lengths.length(VarId(2)), VarLength::Real);
}

#[test]
fn test_corrupt_zlib_geometry_is_decompress_error() {
    let garbage = [0xAAu8, 0xBB, 0xCC, 0xDD];
    let mut block = vec![3u8];
    block.extend(be64(8 + 16 + garbage.len() as u64));
    block.extend(be64(3)); // claims 3 uncompressed bytes
    block.extend(be64(3));
    block.extend(&garbage);
    let mut image = header_block(3, 0);
    image.extend(block);
    assert_eq!(Fst::load(image).unwrap_err(), FstError::Decompress);
}

/// The hierarchy decodes through LZ4 block compression.
#[test]
fn test_lz4_compressed_hierarchy() {
    let mut records = scope_open("design");
    records.extend(var_decl("sig", 1));
    records.push(255);
    let comp = lz4_flex::block::compress(&records);
    let mut block = vec![6u8]; // HIER_LZ4
    block.extend(be64(8 + 8 + comp.len() as u64));
    block.extend(be64(records.len() as u64));
    block.extend(&comp);

    let mut image = header_block(1, 0);
    image.extend(raw_geom_block(&[1]));
    image.extend(block);
    let fst = Fst::load(image).unwrap();
    assert_eq!(fst.hierarchy.scopes[0].name, "design");
    assert_eq!(fst.hierarchy.scopes[0].vars[0].name, "sig");
}

/// The doubly-compressed hierarchy kind unpacks two LZ4 layers.
#[test]
fn test_lz4_duo_compressed_hierarchy() {
    let mut records = scope_open("dual");
    records.extend(var_decl("sig", 1));
    records.push(255);
    let once = lz4_flex::block::compress(&records);
    let twice = lz4_flex::block::compress(&once);
    let mut block = vec![7u8]; // HIER_LZ4DUO
    block.extend(be64(8 + 16 + twice.len() as u64));
    block.extend(be64(records.len() as u64));
    block.extend(be64(once.len() as u64));
    block.extend(&twice);

    let mut image = header_block(1, 0);
    image.extend(raw_geom_block(&[1]));
    image.extend(block);
    let fst = Fst::load(image).unwrap();
    assert_eq!(fst.hierarchy.scopes[0].name, "dual");
}

/// A wave payload compressed with raw deflate (the zlib pack kind).
#[test]
fn test_deflate_compressed_wave() {
    // 16 single-bit changes: to 1 at even indices, to 0 at odd.
    let mut payload: Vec<u8> = vec![0b10];
    for _ in 0..8 {
        payload.push(0b100);
        payload.push(0b110);
    }
    payload.truncate(16);
    let comp = deflate_compress(&payload);
    let mut waves: Vec<u8> = enc_varint(payload.len() as u64);
    waves.extend(&comp);
    let deltas: Vec<u64> = vec![1; 16];
    let image = one_var_image(&waves, &deltas, b'Z');
    let fst = Fst::load(image).unwrap();
    let wave = fst.read_wave(VarId(0)).unwrap();
    assert_eq!(wave.len(), 16);
    assert_eq!(wave[0], (1, Value(vec![1])));
    assert_eq!(wave[1], (2, Value(vec![0])));
    assert_eq!(wave[2], (3, Value(vec![1])));
    assert_eq!(wave[15], (16, Value(vec![0])));
}

/// A wave payload compressed with LZ4.
#[test]
fn test_lz4_compressed_wave() {
    let mut payload: Vec<u8> = vec![0b10];
    for _ in 0..8 {
        payload.push(0b100);
        payload.push(0b110);
    }
    payload.truncate(16);
    let comp = lz4_flex::block::compress(&payload);
    let mut waves: Vec<u8> = enc_varint(payload.len() as u64);
    waves.extend(&comp);
    let deltas: Vec<u64> = vec![1; 16];
    let image = one_var_image(&waves, &deltas, b'4');
    let fst = Fst::load(image).unwrap();
    let wave = fst.read_wave(VarId(0)).unwrap();
    assert_eq!(wave.len(), 16);
    assert_eq!(wave[0], (1, Value(vec![1])));
    assert_eq!(wave[1], (2, Value(vec![0])));
    assert_eq!(wave[15], (16, Value(vec![0])));
}

/// A wave payload compressed with FastLZ.
#[test]
fn test_fastlz_compressed_wave() {
    let mut payload: Vec<u8> = vec![0b10];
    for _ in 0..8 {
        payload.push(0b100);
        payload.push(0b110);
    }
    payload.truncate(16);
    let mut buf = [0u8; 128];
    let comp = fastlz::compress(&payload, &mut buf).unwrap().to_vec();
    let mut waves: Vec<u8> = enc_varint(payload.len() as u64);
    waves.extend(&comp);
    let deltas: Vec<u64> = vec![1; 16];
    let image = one_var_image(&waves, &deltas, b'F');
    let fst = Fst::load(image).unwrap();
    let wave = fst.read_wave(VarId(0)).unwrap();
    assert_eq!(wave.len(), 16);
    assert_eq!(wave[0], (1, Value(vec![1])));
    assert_eq!(wave[1], (2, Value(vec![0])));
    assert_eq!(wave[15], (16, Value(vec![0])));
}

/// An over-long hierarchy name is rejected as unsupported.
#[test]
fn test_overlong_hierarchy_name() {
    let long = "a".repeat(600);
    let mut records = scope_open(&long);
    records.push(255);
    let mut image = header_block(0, 0);
    image.extend(raw_geom_block(&[]));
    image.extend(raw_hier_block(&records));
    assert_eq!(Fst::load(image).unwrap_err(), FstError::UnsupportedFormat);
}

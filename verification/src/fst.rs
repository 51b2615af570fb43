//! The FST reader: block framing, the decoded in-memory index, and the
//! on-demand wave decoder.

use crate::bytes::read_be_u64;
use crate::compress::{deflate_inflate, fastlz_inflate, lz4_inflate};
use crate::error::FstError;
use crate::geometry::{read_geometry_block, VarLength, VarLengths};
use crate::header::{
    read_header, Header, HEADER_BODY_LENGTH, REAL_ENDIANNESS_BIG, REAL_ENDIANNESS_LITTLE,
};
use crate::hierarchy::{read_hierarchy, Hierarchy, HierarchyCompression};
use crate::valvec::{ValAndTimeVec, Value};
use crate::varint::{read_varint, varint_parse_at};
use crate::vcblock::{
    read_value_change_block, ValueChangeBlockData, ValueChangeBlockInfo, VarData, WaveSlice,
};
use crate::wave::{decode_wave_payload, value_from_ascii, wave_changes};
use vstd::prelude::*;

verus! {

/// Index of a value-change block, in file order.
#[derive(Debug, Default, Copy, Clone, Hash, PartialEq, Eq, Structural)]
pub struct BlockId(pub usize);

/// Dense zero-based variable id, assigned in hierarchy declaration order,
/// shared between a primary declaration and its aliases.
#[derive(Debug, Default, Copy, Clone, Hash, PartialEq, Eq, Structural)]
pub struct VarId(pub usize);

/// Dense zero-based scope id, assigned in depth-first declaration order.
#[derive(Debug, Default, Copy, Clone, Hash, PartialEq, Eq, Structural)]
pub struct ScopeId(pub usize);

/// The top-level block kinds of an FST file.
#[derive(Debug, Copy, Clone, PartialEq, Eq, Structural)]
pub enum BlockType {
    Hdr,
    VcData,
    Blackout,
    Geom,
    Hier,
    VcDataDynAlias,
    HierLz4,
    HierLz4Duo,
    VcDataDynAlias2,
    ZWrapper,
    Skip,
}

/// The block kind a type byte denotes.
pub open spec fn block_type_of(b: u8) -> Option<BlockType> {
    if b == 0 {
        Some(BlockType::Hdr)
    } else if b == 1 {
        Some(BlockType::VcData)
    } else if b == 2 {
        Some(BlockType::Blackout)
    } else if b == 3 {
        Some(BlockType::Geom)
    } else if b == 4 {
        Some(BlockType::Hier)
    } else if b == 5 {
        Some(BlockType::VcDataDynAlias)
    } else if b == 6 {
        Some(BlockType::HierLz4)
    } else if b == 7 {
        Some(BlockType::HierLz4Duo)
    } else if b == 8 {
        Some(BlockType::VcDataDynAlias2)
    } else if b == 254 {
        Some(BlockType::ZWrapper)
    } else if b == 255 {
        Some(BlockType::Skip)
    } else {
        None
    }
}

fn block_type_from_u8(b: u8) -> (r: Option<BlockType>)
    ensures
        r == block_type_of(b),
{
    if b == 0 {
        Some(BlockType::Hdr)
    } else if b == 1 {
        Some(BlockType::VcData)
    } else if b == 2 {
        Some(BlockType::Blackout)
    } else if b == 3 {
        Some(BlockType::Geom)
    } else if b == 4 {
        Some(BlockType::Hier)
    } else if b == 5 {
        Some(BlockType::VcDataDynAlias)
    } else if b == 6 {
        Some(BlockType::HierLz4)
    } else if b == 7 {
        Some(BlockType::HierLz4Duo)
    } else if b == 8 {
        Some(BlockType::VcDataDynAlias2)
    } else if b == 254 {
        Some(BlockType::ZWrapper)
    } else if b == 255 {
        Some(BlockType::Skip)
    } else {
        None
    }
}

/// Dump activity recorded in a blackout block.
#[derive(Debug, Copy, Clone, PartialEq, Eq, Structural)]
pub enum BlackoutType {
    DumpOn,
    DumpOff,
}

/// Parse `count` blackout records at `i`: a one-byte activity flag and a
/// varint time delta each, times accumulating from `t`.  Yields the records
/// and the index just past them.
pub open spec fn blackout_records_at(s: Seq<u8>, i: int, count: nat, t: u64) -> Option<
    (Seq<(BlackoutType, u64)>, int),
>
    decreases count,
{
    if count == 0 {
        Some((Seq::empty(), i))
    } else if i < 0 || i >= s.len() {
        None
    } else {
        let activity = if s[i] == 0 {
            BlackoutType::DumpOff
        } else {
            BlackoutType::DumpOn
        };
        match varint_parse_at(s, i + 1, 0, 0) {
            None => None,
            Some((d, end)) => {
                if t + d > u64::MAX {
                    None
                } else {
                    match blackout_records_at(s, end, (count - 1) as nat, (t + d) as u64) {
                        None => None,
                        Some((rest, e2)) => Some(
                            (seq![(activity, (t + d) as u64)] + rest, e2),
                        ),
                    }
                }
            },
        }
    }
}

/// The records of a blackout block body at `p`: a varint count, then that
/// many records.  Yields the records and the index just past them.
pub open spec fn blackout_block(s: Seq<u8>, p: int) -> Option<(Seq<(BlackoutType, u64)>, int)> {
    match varint_parse_at(s, p, 0, 0) {
        None => None,
        Some((count, end)) => blackout_records_at(s, end, count as nat, 0),
    }
}

/// Decode a blackout block body at the cursor: dump-on/off activity changes
/// with accumulated times.  Succeeds exactly when the records parse.
pub fn read_blackout_block(data: &[u8], pos: &mut usize) -> (r: Result<
    Vec<(BlackoutType, u64)>,
    FstError,
>)
    ensures
        match r {
            Ok(b) => {
                &&& blackout_block(data@, *old(pos) as int) is Some
                &&& blackout_block(data@, *old(pos) as int).unwrap().0 == b@
                &&& *final(pos) == blackout_block(data@, *old(pos) as int).unwrap().1
                &&& *final(pos) <= data@.len()
            },
            Err(e) => blackout_block(data@, *old(pos) as int) is None && (e == FstError::Io || e
                == FstError::Malformed),
        },
{
    let ghost p0 = *pos as int;
    let count = match read_varint(data, pos) {
        Ok(v) => v,
        Err(e) => { return Err(e) },
    };
    let ghost target = blackout_records_at(data@, *pos as int, count as nat, 0);
    let mut blackouts: Vec<(BlackoutType, u64)> = Vec::new();
    let mut time: u64 = 0;
    let mut i: u64 = 0;
    while i < count
        invariant
            p0 == *old(pos),
            blackout_block(data@, p0) == target,
            *pos <= data@.len(),
            0 <= i <= count,
            blackouts@.len() == i,
            target == (match blackout_records_at(data@, *pos as int, (count - i) as nat, time) {
                None => None::<(Seq<(BlackoutType, u64)>, int)>,
                Some((rest, e2)) => Some((blackouts@ + rest, e2)),
            }),
        decreases count - i,
    {
        let activity_byte = match crate::bytes::read_u8(data, pos) {
            Ok(b) => b,
            Err(e) => { return Err(e) },
        };
        let activity = if activity_byte == 0 {
            BlackoutType::DumpOff
        } else {
            BlackoutType::DumpOn
        };
        let d = match read_varint(data, pos) {
            Ok(v) => v,
            Err(e) => { return Err(e) },
        };
        let t2 = match time.checked_add(d) {
            Some(t) => t,
            None => { return Err(FstError::Malformed) },
        };
        time = t2;
        blackouts.push((activity, t2));
        proof {
            if blackout_records_at(data@, *pos as int, (count - i - 1) as nat, t2) is Some {
                let rest2 = blackout_records_at(
                    data@,
                    *pos as int,
                    (count - i - 1) as nat,
                    t2,
                ).unwrap().0;
                assert((blackouts@.drop_last() + (seq![(activity, t2)] + rest2)) =~= (blackouts@
                    + rest2));
            }
        }
        i = i + 1;
    }
    proof {
        assert(blackout_records_at(data@, *pos as int, 0, time) == Some(
            (Seq::<(BlackoutType, u64)>::empty(), *pos as int),
        ));
        assert(blackouts@ + Seq::<(BlackoutType, u64)>::empty() =~= blackouts@);
    }
    Ok(blackouts)
}

/// One ASCII-coded value at index `i` of the initial-values stream, of a
/// variable of the given length: the packed value and the index past it.
pub open spec fn ascii_value_at(s: Seq<u8>, i: int, vl: VarLength) -> Option<(Seq<u8>, int)> {
    match vl {
        VarLength::Bits(b) => {
            if i + b > s.len() {
                None
            } else if exists|q: int|
                i <= q < i + b && !crate::wave::is_ascii_bit(#[trigger] s[q]) {
                None
            } else {
                Some(
                    (
                        crate::valvec::pack_symbols(
                            crate::wave::ascii_symbols(s.subrange(i, i + b)),
                        ),
                        i + b,
                    ),
                )
            }
        },
        VarLength::Real => {
            if i + 8 > s.len() {
                None
            } else {
                Some((s.subrange(i, i + 8), i + 8))
            }
        },
    }
}

/// The initial values of variables `v .. count` read sequentially from the
/// stream at `i`, each of its declared length.
pub open spec fn init_values_at(
    s: Seq<u8>,
    i: int,
    lengths: Seq<u8>,
    longs: Map<u64, u32>,
    v: int,
    count: u64,
) -> Option<Seq<Seq<u8>>>
    decreases count - v,
{
    if v < 0 || v >= count {
        Some(Seq::empty())
    } else if v >= lengths.len() {
        None
    } else {
        match ascii_value_at(s, i, crate::geometry::spec_length_of(lengths, longs, v)) {
            None => None,
            Some((val, end)) => match init_values_at(s, end, lengths, longs, v + 1, count) {
                None => None,
                Some(rest) => Some(seq![val] + rest),
            },
        }
    }
}

/// The initial values a block's bits region decodes to: one value per
/// variable, zlib-inflated first when the region's compressed and
/// uncompressed lengths differ.
pub open spec fn init_values_result(
    data: Seq<u8>,
    p: int,
    clen: u64,
    ulen: u64,
    count: u64,
    lengths: Seq<u8>,
    longs: Map<u64, u32>,
) -> Option<Seq<Seq<u8>>> {
    if clen == ulen {
        init_values_at(data, p, lengths, longs, 0, count)
    } else {
        if p + clen <= data.len() && ulen <= usize::MAX && crate::compress::zlib_inflate(
            data.subrange(p, p + clen),
            ulen as nat,
        ) is Some {
            init_values_at(
                crate::compress::zlib_inflate(data.subrange(p, p + clen), ulen as nat).unwrap(),
                0,
                lengths,
                longs,
                0,
                count,
            )
        } else {
            None
        }
    }
}

/// Read one initial value per variable from `stream` at the cursor and
/// append each to its variable's `initial_values`.
fn parse_init_values(
    stream: &[u8],
    spos: &mut usize,
    count: u64,
    var_lengths: &VarLengths,
    var_data: &mut Vec<VarData>,
) -> (r: Result<(), FstError>)
    requires
        var_lengths.wf(),
    ensures
        match r {
            Ok(u) => {
                &&& init_values_at(stream@, *old(spos) as int, var_lengths.lengths@, var_lengths.lengths_long@, 0, count) is Some
                &&& count <= old(var_data)@.len()
                &&& ({
                    let vals = init_values_at(
                        stream@,
                        *old(spos) as int,
                        var_lengths.lengths@,
                        var_lengths.lengths_long@,
                        0,
                        count,
                    ).unwrap();
                    &&& final(var_data)@.len() == old(var_data)@.len()
                    &&& (forall|v: int|
                        0 <= v < count ==> (#[trigger] final(var_data)@[v]).initial_values@ == old(
                            var_data,
                        )@[v].initial_values@.push(final(var_data)@[v].initial_values@.last())
                            && final(var_data)@[v].initial_values@.last()@ == vals[v])
                    &&& (forall|v: int|
                        0 <= v < old(var_data)@.len() ==> (#[trigger] final(var_data)@[v]).wave_slices@ == old(var_data)@[v].wave_slices@)
                    &&& (forall|v: int|
                        count <= v < old(var_data)@.len() ==> #[trigger] final(var_data)@[v] == old(
                            var_data,
                        )@[v])
                })
            },
            Err(e) => (init_values_at(stream@, *old(spos) as int, var_lengths.lengths@, var_lengths.lengths_long@, 0, count) is None
                || count > old(var_data)@.len()) && (e == FstError::Io || e == FstError::Malformed
                || e == FstError::UnsupportedFormat),
        },
{
    if count > var_data.len() as u64 {
        return Err(FstError::Malformed);
    }
    let ghost target = init_values_at(stream@, *spos as int, var_lengths.lengths@, var_lengths.lengths_long@, 0, count);
    let ghost p0 = *spos;
    let mut vals_g: Ghost<Seq<Seq<u8>>> = Ghost(Seq::empty());
    let mut v: u64 = 0;
    while v < count
        invariant
            p0 == *old(spos),
            var_lengths.wf(),
            target == init_values_at(stream@, p0 as int, var_lengths.lengths@, var_lengths.lengths_long@, 0, count),
            0 <= v <= count,
            vals_g@.len() == v,
            count <= old(var_data)@.len(),
            var_data@.len() == old(var_data)@.len(),
            target == (match init_values_at(stream@, *spos as int, var_lengths.lengths@, var_lengths.lengths_long@, v as int, count) {
                None => None::<Seq<Seq<u8>>>,
                Some(rest) => Some(vals_g@ + rest),
            }),
            forall|idx: int|
                0 <= idx < v ==> (#[trigger] var_data@[idx]).initial_values@ == old(
                    var_data,
                )@[idx].initial_values@.push(var_data@[idx].initial_values@.last())
                    && var_data@[idx].initial_values@.last()@ == vals_g@[idx],
            forall|idx: int|
                0 <= idx < old(var_data)@.len() ==> (#[trigger] var_data@[idx]).wave_slices@ == old(
                    var_data,
                )@[idx].wave_slices@,
            forall|idx: int|
                v <= idx < old(var_data)@.len() ==> #[trigger] var_data@[idx] == old(var_data)@[idx],
        decreases count - v,
    {
        if v >= var_lengths.lengths.len() as u64 {
            return Err(FstError::Malformed);
        }
        let vu = v as usize;
        let length = var_lengths.length(VarId(vu));
        let ghost old_spos = *spos;
        let val = match value_from_ascii(stream, spos, length) {
            Ok(val) => val,
            Err(e) => { return Err(e) },
        };
        proof {
            assert(ascii_value_at(stream@, old_spos as int, length) == Some((val@, *spos as int)));
            if init_values_at(
                stream@,
                *spos as int,
                var_lengths.lengths@,
                var_lengths.lengths_long@,
                v + 1,
                count,
            ) is Some {
                let rest2 = init_values_at(
                    stream@,
                    *spos as int,
                    var_lengths.lengths@,
                    var_lengths.lengths_long@,
                    v + 1,
                    count,
                ).unwrap();
                assert((vals_g@ + (seq![val@] + rest2)) =~= (vals_g@.push(val@) + rest2));
            }
        }
        let mut tmp = VarData { initial_values: Vec::new(), wave_slices: Vec::new() };
        var_data.set_and_swap(vu, &mut tmp);
        tmp.initial_values.push(val);
        var_data.set_and_swap(vu, &mut tmp);
        proof {
            vals_g@ = vals_g@.push(var_data@[v as int].initial_values@.last()@);
        }
        v = v + 1;
    }
    Ok(())
}

/// Decode one block's initial-values region at the cursor, appending one
/// value per variable.  The region is zlib-compressed exactly when its two
/// lengths differ.
#[verifier::rlimit(60)]
#[verifier::spinoff_prover]
pub fn read_bits_array(
    data: &[u8],
    pos: &mut usize,
    compressed_length: u64,
    uncompressed_length: u64,
    count: u64,
    var_lengths: &VarLengths,
    var_data: &mut Vec<VarData>,
) -> (r: Result<(), FstError>)
    requires
        var_lengths.wf(),
    ensures
        match r {
            Ok(u) => {
                &&& init_values_result(
                    data@,
                    *old(pos) as int,
                    compressed_length,
                    uncompressed_length,
                    count,
                    var_lengths.lengths@,
                    var_lengths.lengths_long@,
                ) is Some
                &&& count <= old(var_data)@.len()
                &&& ({
                    let vals = init_values_result(
                        data@,
                        *old(pos) as int,
                        compressed_length,
                        uncompressed_length,
                        count,
                        var_lengths.lengths@,
                        var_lengths.lengths_long@,
                    ).unwrap();
                    &&& final(var_data)@.len() == old(var_data)@.len()
                    &&& (forall|v: int|
                        0 <= v < count ==> (#[trigger] final(var_data)@[v]).initial_values@ == old(
                            var_data,
                        )@[v].initial_values@.push(final(var_data)@[v].initial_values@.last())
                            && final(var_data)@[v].initial_values@.last()@ == vals[v])
                    &&& (forall|v: int|
                        0 <= v < old(var_data)@.len() ==> (#[trigger] final(var_data)@[v]).wave_slices@ == old(var_data)@[v].wave_slices@)
                    &&& (forall|v: int|
                        count <= v < old(var_data)@.len() ==> #[trigger] final(var_data)@[v] == old(
                            var_data,
                        )@[v])
                })
            },
            Err(e) => (init_values_result(
                data@,
                *old(pos) as int,
                compressed_length,
                uncompressed_length,
                count,
                var_lengths.lengths@,
                var_lengths.lengths_long@,
            ) is None || count > old(var_data)@.len()) && (e == FstError::Io || e
                == FstError::Malformed || e == FstError::Decompress || e
                == FstError::UnsupportedFormat),
        },
{
    if compressed_length == uncompressed_length {
        parse_init_values(data, pos, count, var_lengths, var_data)
    } else {
        if compressed_length > data.len() as u64 || *pos as u64 > data.len() as u64
            - compressed_length {
            return Err(FstError::Io);
        }
        if uncompressed_length > usize::MAX as u64 {
            return Err(FstError::Malformed);
        }
        let payload = match crate::bytes::read_bytes(data, pos, compressed_length as usize) {
            Ok(v) => v,
            Err(e) => { return Err(e) },
        };
        let stream = match crate::compress::zlib_decompress(
            payload.as_slice(),
            uncompressed_length as usize,
        ) {
            Some(v) => v,
            None => { return Err(FstError::Decompress) },
        };
        let mut spos: usize = 0;
        parse_init_values(stream.as_slice(), &mut spos, count, var_lengths, var_data)
    }
}

/// The decompressed waves payload of one variable's slice of one block:
/// a varint giving the uncompressed length (0 for raw), then the compressed
/// bytes, decoded per the block's pack type.  For FastLZ the decoder must
/// produce exactly the declared length.
pub open spec fn block_payload(
    data: Seq<u8>,
    info: ValueChangeBlockInfo,
    start: u64,
    end: u64,
) -> Option<Seq<u8>> {
    let off = info.waves_data_offset + start;
    match varint_parse_at(data, off as int, 0, 0) {
        None => None,
        Some((u, vend)) => {
            let vlen = vend - off;
            if end < start || end - start < vlen {
                None
            } else {
                let clen = end - start - vlen;
                if vend + clen > data.len() {
                    None
                } else {
                    let comp = data.subrange(vend, vend + clen);
                    if u == 0 {
                        Some(comp)
                    } else if u > usize::MAX {
                        None
                    } else if info.waves_packtype == 70 {
                        if comp.len() == 0 {
                            None
                        } else {
                            let out = fastlz_inflate(comp, u as nat);
                            if out.len() == u {
                                Some(out)
                            } else {
                                None
                            }
                        }
                    } else if info.waves_packtype == 52 {
                        lz4_inflate(comp, u as nat)
                    } else {
                        deflate_inflate(comp, u as nat)
                    }
                }
            }
        },
    }
}

/// The full change list of one variable from block `j` on: each non-empty
/// slice contributes its payload's changes in block order.
pub open spec fn var_wave(
    data: Seq<u8>,
    blocks: Seq<ValueChangeBlockData>,
    slices: Seq<WaveSlice>,
    vl: VarLength,
    j: int,
) -> Option<Seq<(u64, Seq<u8>)>>
    decreases blocks.len() - j,
{
    if j < 0 || j >= blocks.len() {
        Some(Seq::empty())
    } else {
        let sl = slices[j];
        if sl.start >= sl.end {
            var_wave(data, blocks, slices, vl, j + 1)
        } else {
            match block_payload(data, blocks[j].info, sl.start, sl.end) {
                None => None,
                Some(payload) => match wave_changes(payload, 0, vl, blocks[j].times@, 0) {
                    None => None,
                    Some(ch) => match var_wave(data, blocks, slices, vl, j + 1) {
                        None => None,
                        Some(rest) => Some(ch + rest),
                    },
                },
            }
        }
    }
}

/// A successful blackout parse ends within the input.
proof fn lemma_blackout_records_end(s: Seq<u8>, i: int, count: nat, t: u64)
    requires
        0 <= i <= s.len(),
        blackout_records_at(s, i, count, t) is Some,
    ensures
        i <= blackout_records_at(s, i, count, t).unwrap().1 <= s.len(),
    decreases count,
{
    if count != 0 {
        let (d, end) = varint_parse_at(s, i + 1, 0, 0).unwrap();
        crate::varint::lemma_varint_parse_at_range(s, i + 1, 0, 0);
        lemma_blackout_records_end(s, end, (count - 1) as nat, (t + d) as u64);
    }
}

/// The body of a value-change block fits within the image when its metadata
/// parses.
proof fn lemma_vc_info_fits(data: Seq<u8>, p: int, block_length: u64)
    requires
        crate::vcblock::vc_block_info(data, p, block_length) is Some,
    ensures
        p + block_length <= data.len(),
{
    reveal(crate::vcblock::vc_block_info);
}

/// The decoded hierarchy is exactly what the hierarchy block at `hp` (of
/// kind `hc`, body length `hbl`) decompresses and parses to.
#[verifier::opaque]
pub open spec fn hierarchy_matches(
    data: Seq<u8>,
    hp: int,
    hc: HierarchyCompression,
    hbl: u64,
    h: Hierarchy,
) -> bool {
    &&& crate::hierarchy::hier_stream_ok(data, hp, hc, hbl)
    &&& crate::hierarchy::hier_run(
        crate::hierarchy::hier_stream(data, hp, hc, hbl),
        0,
        crate::hierarchy::hier_init(),
    ) is Some
    &&& crate::hierarchy::scopes_model(h.scopes@) == crate::hierarchy::hier_run(
        crate::hierarchy::hier_stream(data, hp, hc, hbl),
        0,
        crate::hierarchy::hier_init(),
    ).unwrap().0
    &&& crate::hierarchy::parent_model(h.parent@) == crate::hierarchy::hier_run(
        crate::hierarchy::hier_stream(data, hp, hc, hbl),
        0,
        crate::hierarchy::hier_init(),
    ).unwrap().1
}

/// What a walk of the whole block sequence yields: the metadata of every
/// value-change block in file order, the position and body length of the
/// geometry block, the position, kind and body length of the hierarchy
/// block, and the blackout records (empty when the file has none).
pub struct FramerOut {
    pub infos: Seq<ValueChangeBlockInfo>,
    pub geom_p: int,
    pub geom_bl: u64,
    pub hier_p: int,
    pub hier_c: HierarchyCompression,
    pub hier_bl: u64,
    pub blackouts: Seq<(BlackoutType, u64)>,
}

/// Walk the top-level block sequence of `data` from `i`: one type byte, a
/// big-endian length word, and the block body, each kind decoded by its own
/// rule.  Yields the `FramerOut` of the walk exactly when every block
/// parses, kinds appear when allowed (header first, geometry, blackout and
/// hierarchy at most once), legacy kinds are absent, every block's decoder
/// ends at the block's boundary, and at the end of the image the header,
/// geometry and a hierarchy have all been seen.  The `geom_*`, `hier_*` and
/// `blk` parameters accumulate what the blocks walked so far declared.
#[verifier::opaque]
pub open spec fn framer_run(
    data: Seq<u8>,
    i: int,
    seen_hdr: bool,
    seen_geom: bool,
    seen_hier: bool,
    seen_blackout: bool,
    geom_p: int,
    geom_bl: u64,
    hier_p: int,
    hier_c: HierarchyCompression,
    hier_bl: u64,
    blk: Seq<(BlackoutType, u64)>,
) -> Option<FramerOut>
    decreases data.len() - i,
        via framer_run_decreases
{
    if i >= data.len() {
        if seen_hdr && seen_geom && seen_hier {
            Some(
                FramerOut {
                    infos: Seq::empty(),
                    geom_p,
                    geom_bl,
                    hier_p,
                    hier_c,
                    hier_bl,
                    blackouts: blk,
                },
            )
        } else {
            None
        }
    } else if i < 0 {
        None
    } else {
        match block_type_of(data[i]) {
            None => None,
            Some(bt) => {
                if bt == BlockType::VcData || bt == BlockType::VcDataDynAlias || bt
                    == BlockType::ZWrapper || bt == BlockType::Skip {
                    None
                } else if (bt == BlockType::Hdr) == seen_hdr {
                    None
                } else if bt == BlockType::Blackout && seen_blackout {
                    None
                } else if bt == BlockType::Geom && seen_geom {
                    None
                } else if (bt == BlockType::Hier || bt == BlockType::HierLz4 || bt
                    == BlockType::HierLz4Duo) && seen_hier {
                    None
                } else if i + 9 > data.len() {
                    None
                } else {
                    let incl = crate::bytes::be_u64_spec(data.subrange(i + 1, i + 9));
                    if incl < 8 {
                        None
                    } else {
                        let bl = (incl - 8) as u64;
                        let p = i + 9;
                        let next = i + 1 + incl;
                        if bt == BlockType::Hdr {
                            if bl == HEADER_BODY_LENGTH && p + 321 <= data.len() && {
                                let re = crate::bytes::le_u64_spec(data.subrange(p + 16, p + 24));
                                re == REAL_ENDIANNESS_LITTLE || re == REAL_ENDIANNESS_BIG
                            } && crate::bytes::be_u64_spec(data.subrange(p + 48, p + 56))
                                <= usize::MAX {
                                framer_run(
                                    data,
                                    next,
                                    true,
                                    seen_geom,
                                    seen_hier,
                                    seen_blackout,
                                    geom_p,
                                    geom_bl,
                                    hier_p,
                                    hier_c,
                                    hier_bl,
                                    blk,
                                )
                            } else {
                                None
                            }
                        } else if bt == BlockType::Blackout {
                            match blackout_block(data, p) {
                                None => None,
                                Some((recs, end)) => {
                                    if end == next {
                                        framer_run(
                                            data,
                                            next,
                                            seen_hdr,
                                            seen_geom,
                                            seen_hier,
                                            true,
                                            geom_p,
                                            geom_bl,
                                            hier_p,
                                            hier_c,
                                            hier_bl,
                                            recs,
                                        )
                                    } else {
                                        None
                                    }
                                },
                            }
                        } else if bt == BlockType::Geom {
                            if crate::geometry::geom_block_ok(data, p, bl) {
                                framer_run(
                                    data,
                                    next,
                                    seen_hdr,
                                    true,
                                    seen_hier,
                                    seen_blackout,
                                    p,
                                    bl,
                                    hier_p,
                                    hier_c,
                                    hier_bl,
                                    blk,
                                )
                            } else {
                                None
                            }
                        } else if bt == BlockType::Hier || bt == BlockType::HierLz4 || bt
                            == BlockType::HierLz4Duo {
                            let comp = if bt == BlockType::Hier {
                                HierarchyCompression::Raw
                            } else if bt == BlockType::HierLz4 {
                                HierarchyCompression::Lz4
                            } else {
                                HierarchyCompression::Lz4Duo
                            };
                            if crate::hierarchy::hier_stream_ok(data, p, comp, bl)
                                && crate::hierarchy::hier_run(
                                crate::hierarchy::hier_stream(data, p, comp, bl),
                                0,
                                crate::hierarchy::hier_init(),
                            ) is Some {
                                framer_run(
                                    data,
                                    next,
                                    seen_hdr,
                                    seen_geom,
                                    true,
                                    seen_blackout,
                                    geom_p,
                                    geom_bl,
                                    p,
                                    comp,
                                    bl,
                                    blk,
                                )
                            } else {
                                None
                            }
                        } else {
                            let num_vars = crate::bytes::be_u64_spec(data.subrange(57, 65));
                            if crate::vcblock::vc_block_info(data, p, bl) is Some && {
                                let info = crate::vcblock::vc_block_info(data, p, bl).unwrap();
                                &&& crate::vcblock::pos_table(
                                    data,
                                    info.position_data_offset as int,
                                    num_vars as nat,
                                    (info.position_data_offset - info.waves_data_offset) as u64,
                                ) is Some
                                &&& crate::vcblock::change_times(
                                    data,
                                    info.time_data_offset as int,
                                    info.time_compressed_length,
                                    info.time_uncompressed_length,
                                    info.time_count,
                                ) is Some
                            } {
                                match framer_run(
                                    data,
                                    next,
                                    seen_hdr,
                                    seen_geom,
                                    seen_hier,
                                    seen_blackout,
                                    geom_p,
                                    geom_bl,
                                    hier_p,
                                    hier_c,
                                    hier_bl,
                                    blk,
                                ) {
                                    None => None,
                                    Some(out) => Some(
                                        FramerOut {
                                            infos: seq![
                                                crate::vcblock::vc_block_info(data, p, bl).unwrap(),
                                            ] + out.infos,
                                            geom_p: out.geom_p,
                                            geom_bl: out.geom_bl,
                                            hier_p: out.hier_p,
                                            hier_c: out.hier_c,
                                            hier_bl: out.hier_bl,
                                            blackouts: out.blackouts,
                                        },
                                    ),
                                }
                            } else {
                                None
                            }
                        }
                    }
                }
            },
        }
    }
}

#[via_fn]
proof fn framer_run_decreases(
    data: Seq<u8>,
    i: int,
    seen_hdr: bool,
    seen_geom: bool,
    seen_hier: bool,
    seen_blackout: bool,
    geom_p: int,
    geom_bl: u64,
    hier_p: int,
    hier_c: HierarchyCompression,
    hier_bl: u64,
    blk: Seq<(BlackoutType, u64)>,
) {
    if 0 <= i < data.len() && block_type_of(data[i]) is Some && i + 9 <= data.len() {
        let incl = crate::bytes::be_u64_spec(data.subrange(i + 1, i + 9));
        if incl >= 8 {
            let bl = (incl - 8) as u64;
            let p = i + 9;
            match block_type_of(data[i]).unwrap() {
                BlockType::Blackout => {
                    if blackout_block(data, p) is Some {
                        crate::varint::lemma_varint_parse_at_range(data, p, 0, 0);
                        let (count, e0) = varint_parse_at(data, p, 0, 0).unwrap();
                        lemma_blackout_records_end(data, e0, count as nat, 0);
                    }
                },
                BlockType::VcDataDynAlias2 => {
                    if crate::vcblock::vc_block_info(data, p, bl) is Some {
                        lemma_vc_info_fits(data, p, bl);
                    }
                },
                _ => {},
            }
        }
    }
}

/// The image begins with a well-formed header block whose real-endianness
/// sentinel matches neither byte order: the one shape that is "not an FST
/// file" rather than malformed.
pub open spec fn bad_sentinel_header(data: Seq<u8>) -> bool {
    &&& data.len() >= 330
    &&& data[0] == 0
    &&& crate::bytes::be_u64_spec(data.subrange(1, 9)) == 329
    &&& !(crate::bytes::le_u64_spec(data.subrange(25, 33)) == REAL_ENDIANNESS_LITTLE
        || crate::bytes::le_u64_spec(data.subrange(25, 33)) == REAL_ENDIANNESS_BIG)
}

/// Everything that must hold of an image for `load` to succeed: the framer
/// walks it to the end, and every value-change block's initial values decode
/// against the geometry — one value per variable, or none at all when the
/// block declares a count of zero.
pub open spec fn load_ok(data: Seq<u8>) -> bool {
    match framer_start(data) {
        None => false,
        Some(out) => {
            let lens = crate::geometry::geom_lengths_of(data, out.geom_p, out.geom_bl);
            let longs = crate::geometry::geom_longs_of(data, out.geom_p, out.geom_bl);
            let num_vars = crate::bytes::be_u64_spec(data.subrange(57, 65));
            forall|j: int|
                0 <= j < out.infos.len() ==> ((#[trigger] out.infos[j]).bits_count == 0
                    || out.infos[j].bits_count == num_vars) && init_values_result(
                    data,
                    out.infos[j].bits_data_offset as int,
                    out.infos[j].bits_compressed_length,
                    out.infos[j].bits_uncompressed_length,
                    out.infos[j].bits_count,
                    lens,
                    longs,
                ) is Some
        },
    }
}

/// The framer's walk of the whole image from its start.
pub open spec fn framer_start(data: Seq<u8>) -> Option<FramerOut> {
    framer_run(
        data,
        0,
        false,
        false,
        false,
        false,
        0,
        0,
        0,
        HierarchyCompression::Raw,
        0,
        Seq::empty(),
    )
}

/// The `(time, value bytes)` pairs a decoded wave holds past its first
/// `npre` entries.
pub open spec fn wave_pairs(w: Seq<(u64, Value)>, npre: int) -> Seq<(u64, Seq<u8>)> {
    Seq::new((w.len() - npre) as nat, |k: int| (w[npre + k].0, w[npre + k].1@))
}

/// The metadata of each decoded value-change block, in block order.
pub open spec fn infos_view(blocks: Seq<ValueChangeBlockData>) -> Seq<ValueChangeBlockInfo> {
    Seq::new(blocks.len(), |j: int| blocks[j].info)
}

/// The decoded block directory matches the image exactly: each block's
/// times vector is its time table's decode, and each variable's slice in
/// each block is its entry of that block's resolved position table.
#[verifier::opaque]
pub open spec fn blocks_match(
    data: Seq<u8>,
    num_vars: u64,
    blocks: Seq<ValueChangeBlockData>,
    var_data: Seq<VarData>,
) -> bool {
    &&& (forall|j: int|
        0 <= j < blocks.len() ==> (#[trigger] blocks[j]).times@ == crate::vcblock::change_times(
            data,
            blocks[j].info.time_data_offset as int,
            blocks[j].info.time_compressed_length,
            blocks[j].info.time_uncompressed_length,
            blocks[j].info.time_count,
        ).unwrap())
    &&& (forall|v: int, j: int|
        0 <= v < var_data.len() && 0 <= j < blocks.len()
            ==> (#[trigger] var_data[v].wave_slices@[j]) == ({
            let info = blocks[j].info;
            let tbl = crate::vcblock::pos_table(
                data,
                info.position_data_offset as int,
                num_vars as nat,
                (info.position_data_offset - info.waves_data_offset) as u64,
            ).unwrap();
            (WaveSlice { start: tbl[v].0, end: tbl[v].1 })
        }))
}

/// A fully loaded FST image: the header, hierarchy, geometry and block
/// directory, plus the raw bytes for on-demand wave decoding.
#[derive(Debug)]
pub struct Fst {
    /// The whole FST image the index was decoded from.
    pub data: Vec<u8>,
    /// Header block, decoded.
    pub header: Header,
    /// Hierarchy block, decoded into a scope arena.
    pub hierarchy: Hierarchy,
    /// Length of each variable in bits.
    pub var_lengths: VarLengths,
    /// The metadata and change times of each value-change block.
    pub value_change_blocks: Vec<ValueChangeBlockData>,
    /// For each variable, its initial value and wave slice in every block.
    pub var_data: Vec<VarData>,
    /// Blackout records, empty when the file has none.
    pub blackouts: Vec<(BlackoutType, u64)>,
}

impl Fst {
    /// The loaded index is coherent: one `VarData` per variable, each with
    /// one wave slice per block, a covered geometry table and a well-formed
    /// hierarchy tree.
    pub open spec fn wf(self) -> bool {
        &&& self.var_data@.len() == self.header.num_vars
        &&& self.var_lengths.wf()
        &&& self.hierarchy.wf()
        &&& (forall|v: int|
            0 <= v < self.var_data@.len() ==> (#[trigger] self.var_data@[v]).wave_slices@.len()
                == self.value_change_blocks@.len())
    }

    /// Parse a whole FST image: the header, geometry, hierarchy, optional
    /// blackout and every value-change block's metadata and times, then the
    /// initial values of every block.  Wave payloads are not touched.
    /// Succeeds exactly when the whole image is coherent (`load_ok`); the
    /// header then holds exactly the fields of the image's first block, and
    /// the geometry and block directory hold exactly what their blocks
    /// decode to.
    #[verifier::rlimit(100)]
    #[verifier::spinoff_prover]
    pub fn load(data: Vec<u8>) -> (r: Result<Fst, FstError>)
        ensures
            (r is Ok) == load_ok(data@),
            r is Err ==> ({
                let e = r.unwrap_err();
                &&& (data@.len() == 0 ==> e == FstError::Malformed)
                &&& (data@.len() > 0 && data@[0] != 0 ==> e == FstError::Malformed)
                &&& (e == FstError::NotAnFstFile <==> bad_sentinel_header(data@))
            }),
            r is Ok ==> ({
                let fst = r.unwrap();
                let out = framer_start(data@).unwrap();
                &&& fst.wf()
                &&& hierarchy_matches(
                    data@,
                    out.hier_p,
                    out.hier_c,
                    out.hier_bl,
                    fst.hierarchy,
                )
                &&& fst.blackouts@ == out.blackouts
                &&& fst.data@ == data@
                &&& data@.len() >= 330
                &&& data@[0] == 0
                &&& crate::bytes::be_u64_spec(data@.subrange(1, 9)) == 329
                &&& crate::header::header_fields(data@, 9, fst.header)
                &&& (fst.header.real_endianness == REAL_ENDIANNESS_LITTLE
                    || fst.header.real_endianness == REAL_ENDIANNESS_BIG)
                &&& fst.value_change_blocks@.len() == out.infos.len()
                &&& (forall|j: int|
                    0 <= j < out.infos.len() ==> (#[trigger] fst.value_change_blocks@[j]).info
                        == out.infos[j])
                &&& fst.var_lengths.lengths@ == crate::geometry::geom_lengths_of(
                    data@,
                    out.geom_p,
                    out.geom_bl,
                )
                &&& fst.var_lengths.lengths_long@ == crate::geometry::geom_longs_of(
                    data@,
                    out.geom_p,
                    out.geom_bl,
                )
                &&& blocks_match(
                    data@,
                    fst.header.num_vars,
                    fst.value_change_blocks@,
                    fst.var_data@,
                )
                &&& (forall|v1: int, v2: int|
                    0 <= v1 < fst.var_data@.len() && 0 <= v2 < fst.var_data@.len()
                        ==> (#[trigger] fst.var_data@[v1]).initial_values@.len()
                        == (#[trigger] fst.var_data@[v2]).initial_values@.len())
                &&& (forall|v: int|
                    0 <= v < fst.var_data@.len()
                        ==> (#[trigger] fst.var_data@[v]).initial_values@.len()
                        <= fst.value_change_blocks@.len())
            }),
    {
        let ghost target = framer_start(data@);
        proof {
            reveal(blocks_match);
        }
        let mut pos: usize = 0;
        let mut header_opt: Option<Header> = None;
        let mut hierarchy_opt: Option<Hierarchy> = None;
        let mut var_lengths_opt: Option<VarLengths> = None;
        let mut blackouts_opt: Option<Vec<(BlackoutType, u64)>> = None;
        let mut value_change_blocks: Vec<ValueChangeBlockData> = Vec::new();
        let mut var_data: Vec<VarData> = Vec::new();
        let mut geom_pg: Ghost<int> = Ghost(0);
        let mut geom_blg: Ghost<u64> = Ghost(0);
        let mut hier_pg: Ghost<int> = Ghost(0);
        let mut hier_cg: Ghost<HierarchyCompression> = Ghost(HierarchyCompression::Raw);
        let mut hier_blg: Ghost<u64> = Ghost(0);
        let mut blk_g: Ghost<Seq<(BlackoutType, u64)>> = Ghost(Seq::empty());
        proof {
            reveal(framer_run);
        }
        while pos < data.len()
            invariant
                pos <= data@.len(),
                target == framer_start(data@),
                target == (match framer_run(
                    data@,
                    pos as int,
                    header_opt is Some,
                    var_lengths_opt is Some,
                    hierarchy_opt is Some,
                    blackouts_opt is Some,
                    geom_pg@,
                    geom_blg@,
                    hier_pg@,
                    hier_cg@,
                    hier_blg@,
                    blk_g@,
                ) {
                    None => None::<FramerOut>,
                    Some(out) => Some(
                        (FramerOut {
                            infos: infos_view(value_change_blocks@) + out.infos,
                            geom_p: out.geom_p,
                            geom_bl: out.geom_bl,
                            hier_p: out.hier_p,
                            hier_c: out.hier_c,
                            hier_bl: out.hier_bl,
                            blackouts: out.blackouts,
                        }),
                    ),
                }),
                blackouts_opt is None ==> blk_g@ == Seq::<(BlackoutType, u64)>::empty(),
                blackouts_opt matches Some(b) ==> b@ == blk_g@,
                hierarchy_opt matches Some(h) ==> hierarchy_matches(
                    data@,
                    hier_pg@,
                    hier_cg@,
                    hier_blg@,
                    h,
                ),
                header_opt is None ==> var_data@.len() == 0 && value_change_blocks@.len() == 0
                    && pos == 0,
                header_opt matches Some(h) ==> var_data@.len() == h.num_vars && data@.len() >= 330
                    && data@[0] == 0 && crate::bytes::be_u64_spec(data@.subrange(1, 9)) == 329
                    && crate::header::header_fields(data@, 9, h) && (h.real_endianness
                    == REAL_ENDIANNESS_LITTLE || h.real_endianness == REAL_ENDIANNESS_BIG)
                    && !bad_sentinel_header(data@),
                forall|v: int|
                    0 <= v < var_data@.len() ==> (#[trigger] var_data@[v]).wave_slices@.len()
                        == value_change_blocks@.len(),
                forall|v: int|
                    0 <= v < var_data@.len() ==> (#[trigger] var_data@[v]).initial_values@.len()
                        == 0,
                var_lengths_opt matches Some(vl) ==> vl.wf() && vl.lengths@
                    == crate::geometry::geom_lengths_of(data@, geom_pg@, geom_blg@)
                    && vl.lengths_long@ == crate::geometry::geom_longs_of(
                    data@,
                    geom_pg@,
                    geom_blg@,
                ),
                hierarchy_opt matches Some(h) ==> h.wf(),
                header_opt matches Some(h) ==> blocks_match(
                    data@,
                    h.num_vars,
                    value_change_blocks@,
                    var_data@,
                ),
                forall|b: int|
                    0 <= b < value_change_blocks@.len() ==> {
                        let info = (#[trigger] value_change_blocks@[b]).info;
                        &&& info.bits_data_offset + info.bits_compressed_length <= data@.len()
                        &&& info.time_data_offset <= data@.len()
                        &&& info.waves_data_offset <= info.position_data_offset <= data@.len()
                    },
            decreases data@.len() - pos,
        {
            proof {
                reveal(framer_run);
                reveal(blocks_match);
            }
            let ghost i0 = pos as int;
            let type_byte = data[pos];
            pos = pos + 1;
            let block_type = match block_type_from_u8(type_byte) {
                Some(b) => b,
                None => { return Err(FstError::Malformed) },
            };
            // An unexpected block type is malformed before anything else: in
            // particular any first block that is not a header, legacy or
            // not.  A legacy kind in a position where a block is expected is
            // the distinct unsupported-format failure.
            if block_type == BlockType::Hdr {
                if header_opt.is_some() {
                    return Err(FstError::Malformed);
                }
            } else {
                if header_opt.is_none() {
                    return Err(FstError::Malformed);
                }
            }
            if block_type == BlockType::VcData || block_type == BlockType::VcDataDynAlias
                || block_type == BlockType::ZWrapper || block_type == BlockType::Skip {
                return Err(FstError::UnsupportedFormat);
            }
            if block_type == BlockType::Blackout && blackouts_opt.is_some() {
                return Err(FstError::Malformed);
            }
            if block_type == BlockType::Geom && var_lengths_opt.is_some() {
                return Err(FstError::Malformed);
            }
            if (block_type == BlockType::Hier || block_type == BlockType::HierLz4 || block_type
                == BlockType::HierLz4Duo) && hierarchy_opt.is_some() {
                return Err(FstError::Malformed);
            }
            let block_length_position = pos;
            let block_length_including_length = match read_be_u64(data.as_slice(), &mut pos) {
                Ok(v) => v,
                Err(e) => { return Err(e) },
            };
            if block_length_including_length < 8 {
                return Err(FstError::Malformed);
            }
            let block_length = block_length_including_length - 8;
            if block_type == BlockType::Hdr {
                if block_length != HEADER_BODY_LENGTH {
                    return Err(FstError::Malformed);
                }
                let h = match read_header(data.as_slice(), &mut pos) {
                    Ok(h) => h,
                    Err(e) => { return Err(e) },
                };
                if h.real_endianness != REAL_ENDIANNESS_LITTLE && h.real_endianness
                    != REAL_ENDIANNESS_BIG {
                    return Err(FstError::NotAnFstFile);
                }
                if h.num_vars > usize::MAX as u64 {
                    return Err(FstError::Malformed);
                }
                let n = h.num_vars as usize;
                let mut v: usize = 0;
                while v < n
                    invariant
                        v <= n,
                        var_data@.len() == v,
                        value_change_blocks@.len() == 0,
                        forall|idx: int|
                            0 <= idx < var_data@.len() ==> (#[trigger] var_data@[idx]).wave_slices@
                                =~= Seq::<WaveSlice>::empty(),
                        forall|idx: int|
                            0 <= idx < var_data@.len() ==> (#[trigger] var_data@[idx]).initial_values@
                                =~= Seq::<Value>::empty(),
                    decreases n - v,
                {
                    var_data.push(VarData { initial_values: Vec::new(), wave_slices: Vec::new() });
                    v = v + 1;
                }
                header_opt = Some(h);
            } else if block_type == BlockType::Blackout {
                let b = match read_blackout_block(data.as_slice(), &mut pos) {
                    Ok(b) => b,
                    Err(e) => { return Err(e) },
                };
                proof {
                    blk_g@ = b@;
                }
                blackouts_opt = Some(b);
            } else if block_type == BlockType::Geom {
                let vl = match read_geometry_block(data.as_slice(), &mut pos, block_length) {
                    Ok(vl) => vl,
                    Err(e) => { return Err(e) },
                };
                var_lengths_opt = Some(vl);
                proof {
                    geom_pg@ = i0 + 9;
                    geom_blg@ = block_length;
                }
            } else if block_type == BlockType::Hier || block_type == BlockType::HierLz4
                || block_type == BlockType::HierLz4Duo {
                let compression = if block_type == BlockType::Hier {
                    HierarchyCompression::Raw
                } else if block_type == BlockType::HierLz4 {
                    HierarchyCompression::Lz4
                } else {
                    HierarchyCompression::Lz4Duo
                };
                let h = match read_hierarchy(data.as_slice(), &mut pos, compression, block_length) {
                    Ok(h) => h,
                    Err(e) => { return Err(e) },
                };
                hierarchy_opt = Some(h);
                proof {
                    hier_pg@ = i0 + 9;
                    hier_cg@ = compression;
                    hier_blg@ = block_length;
                    reveal(hierarchy_matches);
                }
            } else {
                let num_vars: u64 = match &header_opt {
                    Some(h) => h.num_vars,
                    None => { return Err(FstError::Malformed) },
                };
                let ghost old_blocks = value_change_blocks@;
                let d = match read_value_change_block(
                    data.as_slice(),
                    &mut pos,
                    block_length,
                    num_vars,
                    &mut var_data,
                ) {
                    Ok(d) => d,
                    Err(e) => { return Err(e) },
                };
                value_change_blocks.push(d);
                proof {
                    assert(infos_view(value_change_blocks@) =~= infos_view(old_blocks).push(
                        value_change_blocks@.last().info,
                    ));
                    let p = i0 + 9;
                    if framer_run(
                        data@,
                        i0 + 1 + block_length_including_length,
                        header_opt is Some,
                        var_lengths_opt is Some,
                        hierarchy_opt is Some,
                        blackouts_opt is Some,
                        geom_pg@,
                        geom_blg@,
                        hier_pg@,
                        hier_cg@,
                        hier_blg@,
                        blk_g@,
                    ) is Some {
                        let rest2 = framer_run(
                            data@,
                            i0 + 1 + block_length_including_length,
                            header_opt is Some,
                            var_lengths_opt is Some,
                            hierarchy_opt is Some,
                            blackouts_opt is Some,
                            geom_pg@,
                            geom_blg@,
                            hier_pg@,
                            hier_cg@,
                            hier_blg@,
                            blk_g@,
                        ).unwrap().infos;
                        let info = crate::vcblock::vc_block_info(
                            data@,
                            p,
                            block_length,
                        ).unwrap();
                        assert((infos_view(old_blocks) + (seq![info] + rest2)) =~= (infos_view(
                            value_change_blocks@,
                        ) + rest2));
                    }
                }
            }
            let expected_end = match (block_length_position as u64).checked_add(
                block_length_including_length,
            ) {
                Some(t) => t,
                None => { return Err(FstError::Malformed) },
            };
            if pos as u64 != expected_end {
                return Err(FstError::Malformed);
            }
        }
        let header = match header_opt {
            Some(h) => h,
            None => { return Err(FstError::Malformed) },
        };
        let hierarchy = match hierarchy_opt {
            Some(h) => h,
            None => { return Err(FstError::Malformed) },
        };
        let var_lengths = match var_lengths_opt {
            Some(v) => v,
            None => { return Err(FstError::Malformed) },
        };
        let blackouts = match blackouts_opt {
            Some(b) => b,
            None => Vec::new(),
        };
        proof {
            reveal(framer_run);
            assert(target == Some(
                (FramerOut {
                    infos: infos_view(value_change_blocks@),
                    geom_p: geom_pg@,
                    geom_bl: geom_blg@,
                    hier_p: hier_pg@,
                    hier_c: hier_cg@,
                    hier_bl: hier_blg@,
                    blackouts: blk_g@,
                }),
            ));
        }
        let mut bidx: usize = 0;
        let mut n_init: Ghost<int> = Ghost(0);
        while bidx < value_change_blocks.len()
            invariant
                target == framer_start(data@),
                target == Some(
                    (FramerOut {
                        infos: infos_view(value_change_blocks@),
                        geom_p: geom_pg@,
                        geom_bl: geom_blg@,
                        hier_p: hier_pg@,
                        hier_c: hier_cg@,
                        hier_bl: hier_blg@,
                        blackouts: blk_g@,
                    }),
                ),
                blackouts@ == blk_g@,
                hierarchy_matches(data@, hier_pg@, hier_cg@, hier_blg@, hierarchy),
                0 <= n_init@ <= bidx,
                forall|v: int|
                    0 <= v < var_data@.len() ==> (#[trigger] var_data@[v]).initial_values@.len()
                        == n_init@,
                var_lengths.wf(),
                var_lengths.lengths@ == crate::geometry::geom_lengths_of(
                    data@,
                    geom_pg@,
                    geom_blg@,
                ),
                var_lengths.lengths_long@ == crate::geometry::geom_longs_of(
                    data@,
                    geom_pg@,
                    geom_blg@,
                ),
                var_data@.len() == header.num_vars,
                header.num_vars == crate::bytes::be_u64_spec(data@.subrange(57, 65)),
                data@.len() >= 330,
                data@[0] == 0,
                !bad_sentinel_header(data@),
                blocks_match(data@, header.num_vars, value_change_blocks@, var_data@),
                bidx <= value_change_blocks@.len(),
                forall|v: int|
                    0 <= v < var_data@.len() ==> (#[trigger] var_data@[v]).wave_slices@.len()
                        == value_change_blocks@.len(),
                forall|j: int|
                    0 <= j < bidx ==> ((#[trigger] value_change_blocks@[j]).info.bits_count == 0
                        || value_change_blocks@[j].info.bits_count == header.num_vars)
                        && init_values_result(
                        data@,
                        value_change_blocks@[j].info.bits_data_offset as int,
                        value_change_blocks@[j].info.bits_compressed_length,
                        value_change_blocks@[j].info.bits_uncompressed_length,
                        value_change_blocks@[j].info.bits_count,
                        var_lengths.lengths@,
                        var_lengths.lengths_long@,
                    ) is Some,
                forall|b: int|
                    0 <= b < value_change_blocks@.len() ==> {
                        let info = (#[trigger] value_change_blocks@[b]).info;
                        &&& info.bits_data_offset + info.bits_compressed_length <= data@.len()
                        &&& info.time_data_offset <= data@.len()
                        &&& info.waves_data_offset <= info.position_data_offset <= data@.len()
                    },
            decreases value_change_blocks@.len() - bidx,
        {
            proof {
                reveal(blocks_match);
            }
            let info_bits_offset = value_change_blocks[bidx].info.bits_data_offset;
            let info_bits_clen = value_change_blocks[bidx].info.bits_compressed_length;
            let info_bits_ulen = value_change_blocks[bidx].info.bits_uncompressed_length;
            let info_bits_count = value_change_blocks[bidx].info.bits_count;
            if info_bits_count != 0 && info_bits_count != header.num_vars {
                proof {
                    assert(infos_view(value_change_blocks@)[bidx as int]
                        == value_change_blocks@[bidx as int].info);
                }
                return Err(FstError::Malformed);
            }
            pos = info_bits_offset as usize;
            match read_bits_array(
                data.as_slice(),
                &mut pos,
                info_bits_clen,
                info_bits_ulen,
                info_bits_count,
                &var_lengths,
                &mut var_data,
            ) {
                Ok(u) => u,
                Err(e) => {
                    proof {
                        assert(infos_view(value_change_blocks@)[bidx as int]
                            == value_change_blocks@[bidx as int].info);
                    }
                    return Err(e)
                },
            };
            proof {
                if info_bits_count != 0 {
                    n_init@ = n_init@ + 1;
                }
            }
            bidx = bidx + 1;
        }
        Ok(
            Fst {
                data,
                header,
                hierarchy,
                var_lengths,
                value_change_blocks,
                var_data,
                blackouts,
            },
        )
    }

    /// Decode one variable's full timeline: its initial value at time 0 (when
    /// any block carried initial values for it), then every change of every
    /// block, in block order.  Succeeds exactly when the variable exists and
    /// each of its block payloads decodes (`var_wave`).
    pub fn read_wave(&self, varid: VarId) -> (r: Result<ValAndTimeVec, FstError>)
        requires
            self.wf(),
        ensures
            match r {
                Ok(w) => {
                    &&& varid.0 < self.var_data@.len()
                    &&& varid.0 < self.var_lengths.lengths@.len()
                    &&& ({
                        let vl = self.var_lengths.spec_length(varid.0 as int);
                        let vd = self.var_data@[varid.0 as int];
                        let changes = var_wave(
                            self.data@,
                            self.value_change_blocks@,
                            vd.wave_slices@,
                            vl,
                            0,
                        );
                        &&& changes is Some
                        &&& ({
                            let npre: int = if vd.initial_values@.len() > 0 {
                                1
                            } else {
                                0
                            };
                            &&& w@.len() == npre + changes.unwrap().len()
                            &&& (vd.initial_values@.len() > 0 ==> w@[0].0 == 0 && w@[0].1@
                                == vd.initial_values@[0]@)
                            &&& (forall|k: int|
                                0 <= k < changes.unwrap().len() ==> (#[trigger] w@[npre + k]).0
                                    == changes.unwrap()[k].0 && w@[npre + k].1@
                                    == changes.unwrap()[k].1)
                        })
                    })
                },
                Err(e) => !(varid.0 < self.var_data@.len() && varid.0
                    < self.var_lengths.lengths@.len() && var_wave(
                    self.data@,
                    self.value_change_blocks@,
                    self.var_data@[varid.0 as int].wave_slices@,
                    self.var_lengths.spec_length(varid.0 as int),
                    0,
                ) is Some) && (e == FstError::Io || e == FstError::Malformed || e
                    == FstError::Decompress || e == FstError::UnsupportedFormat),
            },
    {
        if varid.0 >= self.var_data.len() {
            return Err(FstError::Malformed);
        }
        if varid.0 >= self.var_lengths.lengths.len() {
            return Err(FstError::Malformed);
        }
        let var_length = self.var_lengths.length(varid);
        let mut wave: ValAndTimeVec = Vec::new();
        let vd = &self.var_data[varid.0];
        if vd.initial_values.len() > 0 {
            wave.push((0, vd.initial_values[0].duplicate()));
        }
        let ghost npre: int = wave@.len() as int;
        let nblocks = self.value_change_blocks.len();
        let mut j: usize = 0;
        while j < nblocks
            invariant
                self.wf(),
                varid.0 < self.var_data@.len(),
                varid.0 < self.var_lengths.lengths@.len(),
                var_length == self.var_lengths.spec_length(varid.0 as int),
                vd == &self.var_data@[varid.0 as int],
                nblocks == self.value_change_blocks@.len(),
                j <= nblocks,
                npre == (if vd.initial_values@.len() > 0 {
                    1int
                } else {
                    0int
                }),
                npre <= wave@.len(),
                vd.initial_values@.len() > 0 ==> wave@.len() > 0 && wave@[0].0 == 0 && wave@[0].1@
                    == vd.initial_values@[0]@,
                var_wave(
                    self.data@,
                    self.value_change_blocks@,
                    vd.wave_slices@,
                    var_length,
                    0,
                ) == (match var_wave(
                    self.data@,
                    self.value_change_blocks@,
                    vd.wave_slices@,
                    var_length,
                    j as int,
                ) {
                    None => None::<Seq<(u64, Seq<u8>)>>,
                    Some(rest) => Some(wave_pairs(wave@, npre) + rest),
                }),
            decreases nblocks - j,
        {
            let slice = vd.wave_slices[j];
            if slice.start >= slice.end {
                j = j + 1;
                continue ;
            }
            let info = &self.value_change_blocks[j].info;
            let dlen = self.data.len();
            let offset = match info.waves_data_offset.checked_add(slice.start) {
                Some(o) => o,
                None => {
                    proof {
                        assert(varint_parse_at(
                            self.data@,
                            self.value_change_blocks@[j as int].info.waves_data_offset
                                + slice.start,
                            0,
                            0,
                        ) is None);
                    }
                    return Err(FstError::Malformed)
                },
            };
            if offset > usize::MAX as u64 {
                proof {
                    assert(varint_parse_at(self.data@, offset as int, 0, 0) is None);
                }
                return Err(FstError::Malformed);
            }
            let mut p2: usize = offset as usize;
            let u = match read_varint(self.data.as_slice(), &mut p2) {
                Ok(u) => u,
                Err(e) => { return Err(e) },
            };
            let vlen = p2 as u64 - offset;
            let span = slice.end - slice.start;
            if span < vlen {
                return Err(FstError::Malformed);
            }
            let clen = span - vlen;
            if clen > (self.data.len() - p2) as u64 {
                return Err(FstError::Io);
            }
            let comp = match crate::bytes::read_bytes(self.data.as_slice(), &mut p2, clen as usize) {
                Ok(c) => c,
                Err(e) => { return Err(e) },
            };
            let payload: Vec<u8>;
            if u == 0 {
                payload = comp;
            } else if u > usize::MAX as u64 {
                return Err(FstError::Malformed);
            } else if info.waves_packtype == 70 {
                if comp.len() == 0 {
                    return Err(FstError::Decompress);
                }
                let out = crate::compress::fastlz_decompress(comp.as_slice(), u as usize);
                if out.len() as u64 != u {
                    return Err(FstError::Decompress);
                }
                payload = out;
            } else if info.waves_packtype == 52 {
                payload = match crate::compress::lz4_decompress(comp.as_slice(), u as usize) {
                    Some(v) => v,
                    None => { return Err(FstError::Decompress) },
                };
            } else {
                payload = match crate::compress::deflate_decompress(comp.as_slice(), u as usize) {
                    Some(v) => v,
                    None => { return Err(FstError::Decompress) },
                };
            }
            proof {
                assert(block_payload(
                    self.data@,
                    self.value_change_blocks@[j as int].info,
                    slice.start,
                    slice.end,
                ) == Some(payload@));
            }
            let ghost wave_before = wave@;
            let times = &self.value_change_blocks[j].times;
            match decode_wave_payload(payload.as_slice(), var_length, times, &mut wave) {
                Ok(u2) => u2,
                Err(e) => { return Err(e) },
            };
            proof {
                let blocks = self.value_change_blocks@;
                let slices = vd.wave_slices@;
                let ch = wave_changes(payload@, 0, var_length, blocks[j as int].times@, 0).unwrap();
                assert(wave@.len() == wave_before.len() + ch.len());
                assert forall|k: int| 0 <= k < wave@.len() - npre implies wave_pairs(wave@, npre)[k]
                    == (wave_pairs(wave_before, npre) + ch)[k] by {
                    if k < wave_before.len() - npre {
                        assert(wave@[npre + k] == wave_before[npre + k]);
                    } else {
                        let kk = k - (wave_before.len() - npre);
                        assert(wave@[wave_before.len() + kk].0 == ch[kk].0 && wave@[
                        wave_before.len() + kk].1@ == ch[kk].1);
                    }
                }
                assert(wave_pairs(wave@, npre) =~= wave_pairs(wave_before, npre) + ch);
                if var_wave(self.data@, blocks, slices, var_length, j + 1) is Some {
                    let rest2 = var_wave(self.data@, blocks, slices, var_length, j + 1).unwrap();
                    assert((wave_pairs(wave_before, npre) + (ch + rest2)) =~= (wave_pairs(
                        wave@,
                        npre,
                    ) + rest2));
                }
            }
            j = j + 1;
        }
        Ok(wave)
    }
}

} // verus!

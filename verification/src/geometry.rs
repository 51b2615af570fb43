//! The geometry block: each variable's width in bits, or "real".
//!
//! The block is a table of `count` unsigned varints, possibly zlib-
//! compressed.  Entry values 0 and 0xFFFFFFFF are sentinels for "real" and
//! "zero bits"; entries of 0xFE or more (that are not the zero sentinel)
//! overflow the dense byte table into a sidecar map.

use crate::compress::{zlib_decompress, zlib_inflate};
use crate::error::FstError;
use crate::fst::VarId;
use crate::varint::{read_varint, varint_parse_at};
use std::collections::HashMap;
use vstd::prelude::*;

verus! {

broadcast use vstd::std_specs::hash::group_hash_axioms;

/// Byte-table sentinel: the variable is real-typed.
pub const VAR_LENGTH_REAL: u8 = 0xFE;

/// Byte-table sentinel: the width is in the sidecar map.
pub const VAR_LENGTH_LONG: u8 = 0xFF;

/// A variable's declared length: a bit width, or a real (8 bytes on the
/// wire).
#[derive(PartialEq, Eq, Debug, Copy, Clone, Structural)]
pub enum VarLength {
    Bits(u32),
    Real,
}

/// The decoded geometry: a dense byte per variable with two sentinel values,
/// and the sidecar map holding widths of 0xFE or more.
#[derive(Clone, Debug)]
pub struct VarLengths {
    /// One byte per variable: a width below 0xFE, or a sentinel.
    pub lengths: Vec<u8>,
    /// Full widths of variables whose byte is `VAR_LENGTH_LONG`.
    pub lengths_long: HashMap<u64, u32>,
}

/// Parse `count` unsigned varints from `s` starting at `pos`.
pub open spec fn geom_entries_at(s: Seq<u8>, pos: int, count: nat) -> Option<Seq<u64>>
    decreases count,
{
    if count == 0 {
        Some(Seq::empty())
    } else {
        match varint_parse_at(s, pos, 0, 0) {
            None => None,
            Some((v, end)) => match geom_entries_at(s, end, (count - 1) as nat) {
                None => None,
                Some(rest) => Some(seq![v] + rest),
            },
        }
    }
}

/// The byte the dense table stores for a geometry entry.
pub open spec fn geom_length_byte(v: u64) -> u8 {
    if v == 0 {
        0xFE
    } else if v == 0xFFFFFFFF {
        0
    } else if v >= 0xFE {
        0xFF
    } else {
        v as u8
    }
}

/// The length a table with the given views holds for variable `i`.
pub open spec fn spec_length_of(lengths: Seq<u8>, longs: Map<u64, u32>, i: int) -> VarLength {
    if lengths[i] == 0xFE {
        VarLength::Real
    } else if lengths[i] == 0xFF {
        VarLength::Bits(longs[i as u64])
    } else {
        VarLength::Bits(lengths[i] as u32)
    }
}

impl VarLengths {
    /// The sidecar map covers every `VAR_LENGTH_LONG` byte of the table.
    pub open spec fn wf(self) -> bool {
        forall|i: int|
            0 <= i < self.lengths@.len() && self.lengths@[i] == 0xFF
                ==> self.lengths_long@.contains_key(i as u64)
    }

    /// The length the table holds for variable `i`.
    pub open spec fn spec_length(self, i: int) -> VarLength {
        spec_length_of(self.lengths@, self.lengths_long@, i)
    }

    /// Look up a variable's declared length.
    pub fn length(&self, varid: VarId) -> (r: VarLength)
        requires
            self.wf(),
            varid.0 < self.lengths@.len(),
        ensures
            r == self.spec_length(varid.0 as int),
    {
        let b = self.lengths[varid.0];
        if b == VAR_LENGTH_REAL {
            VarLength::Real
        } else if b == VAR_LENGTH_LONG {
            match self.lengths_long.get(&(varid.0 as u64)) {
                Some(w) => VarLength::Bits(*w),
                None => {
                    proof {
                        assert(false);
                    }
                    VarLength::Bits(0)
                },
            }
        } else {
            VarLength::Bits(b as u32)
        }
    }
}

/// Everything that must hold of a geometry block body for its decode to
/// succeed: the two length words and the payload fit, the payload inflates
/// when compressed, exactly `count` varints parse, and every entry fits in
/// 32 bits.
pub open spec fn geom_block_ok(data: Seq<u8>, p: int, block_length: u64) -> bool {
    &&& p + 16 <= data.len()
    &&& block_length >= 16
    &&& p + 16 + (block_length - 16) <= data.len()
    &&& {
        let ulen = crate::bytes::be_u64_spec(data.subrange(p, p + 8));
        let clen = block_length - 16;
        ulen != clen ==> ulen <= usize::MAX && zlib_inflate(
            data.subrange(p + 16, p + 16 + clen),
            ulen as nat,
        ) is Some
    }
    &&& geom_entries_at(geom_stream(data, p, block_length), 0, geom_count(data, p) as nat) is Some
    &&& (forall|j: int|
        0 <= j < geom_count(data, p) ==> geom_entries_at(
            geom_stream(data, p, block_length),
            0,
            geom_count(data, p) as nat,
        ).unwrap()[j] <= 0xFFFFFFFF)
}

/// The entry count a geometry block declares.
pub open spec fn geom_count(data: Seq<u8>, p: int) -> u64 {
    crate::bytes::be_u64_spec(data.subrange(p + 8, p + 16))
}

/// The dense byte table a geometry block decodes to.
pub open spec fn geom_lengths_of(data: Seq<u8>, p: int, block_length: u64) -> Seq<u8> {
    let entries = geom_entries_at(
        geom_stream(data, p, block_length),
        0,
        geom_count(data, p) as nat,
    ).unwrap();
    Seq::new(entries.len(), |j: int| geom_length_byte(entries[j]))
}

/// The sidecar map a geometry block decodes to: the full width of each
/// entry whose table byte is the `VAR_LENGTH_LONG` sentinel.
pub open spec fn geom_longs_of(data: Seq<u8>, p: int, block_length: u64) -> Map<u64, u32> {
    let entries = geom_entries_at(
        geom_stream(data, p, block_length),
        0,
        geom_count(data, p) as nat,
    ).unwrap();
    Map::new(
        |k: u64| k < entries.len() && geom_length_byte(entries[k as int]) == 0xFF,
        |k: u64| entries[k as int] as u32,
    )
}

/// The stream a geometry block's entries are read from.
pub open spec fn geom_stream(data: Seq<u8>, p: int, block_length: u64) -> Seq<u8> {
    let ulen = crate::bytes::be_u64_spec(data.subrange(p, p + 8));
    let clen = block_length - 16;
    let payload = data.subrange(p + 16, p + 16 + clen);
    if ulen == clen {
        payload
    } else {
        zlib_inflate(payload, ulen as nat).unwrap()
    }
}

/// Decode a geometry block body of `block_length` bytes at the cursor.  On
/// success the cursor rests at the end of the payload and the table mirrors
/// the block's entries exactly; the decode succeeds if and only if the block
/// is coherent (`geom_block_ok`).
#[verifier::rlimit(60)]
#[verifier::spinoff_prover]
pub fn read_geometry_block(data: &[u8], pos: &mut usize, block_length: u64) -> (r: Result<
    VarLengths,
    FstError,
>)
    ensures
        match r {
            Ok(vl) => {
                let p = *old(pos) as int;
                let entries = geom_entries_at(
                    geom_stream(data@, p, block_length),
                    0,
                    geom_count(data@, p) as nat,
                ).unwrap();
                &&& geom_block_ok(data@, p, block_length)
                &&& *final(pos) == p + block_length
                &&& vl.wf()
                &&& vl.lengths@.len() == entries.len()
                &&& entries.len() == geom_count(data@, p)
                &&& (forall|j: int|
                    0 <= j < entries.len() ==> vl.lengths@[j] == geom_length_byte(
                        #[trigger] entries[j],
                    ))
                &&& (forall|j: int|
                    0 <= j < entries.len() && geom_length_byte(#[trigger] entries[j]) == 0xFF
                        ==> vl.lengths_long@.contains_key(j as u64) && vl.lengths_long@[j as u64]
                        == entries[j] as u32)
                &&& (forall|k: u64|
                    #[trigger] vl.lengths_long@.contains_key(k) ==> k < entries.len()
                        && vl.lengths@[k as int] == 0xFF)
                &&& vl.lengths@ == geom_lengths_of(data@, p, block_length)
                &&& vl.lengths_long@ == geom_longs_of(data@, p, block_length)
            },
            Err(e) => !geom_block_ok(data@, *old(pos) as int, block_length) && (e == FstError::Io
                || e == FstError::Malformed || e == FstError::Decompress),
        },
{
    let ghost p = *pos as int;
    let ulen = match crate::bytes::read_be_u64(data, pos) {
        Ok(v) => v,
        Err(e) => { return Err(e) },
    };
    let count = match crate::bytes::read_be_u64(data, pos) {
        Ok(v) => v,
        Err(e) => { return Err(e) },
    };
    if block_length < 16 {
        return Err(FstError::Malformed);
    }
    let clen = block_length - 16;
    if clen > data.len() as u64 - *pos as u64 {
        return Err(FstError::Io);
    }
    let payload = match crate::bytes::read_bytes(data, pos, clen as usize) {
        Ok(v) => v,
        Err(e) => { return Err(e) },
    };
    let stream: Vec<u8>;
    if ulen == clen {
        stream = payload;
    } else {
        if ulen > usize::MAX as u64 {
            return Err(FstError::Malformed);
        }
        stream = match zlib_decompress(payload.as_slice(), ulen as usize) {
            Some(v) => v,
            None => { return Err(FstError::Decompress) },
        };
    }
    proof {
        assert(stream@ == geom_stream(data@, p, block_length));
    }
    let mut vl = VarLengths { lengths: Vec::new(), lengths_long: HashMap::new() };
    let mut spos: usize = 0;
    let mut i: u64 = 0;
    let ghost full = geom_entries_at(stream@, 0, count as nat);
    let mut entries_g: Ghost<Seq<u64>> = Ghost(Seq::empty());
    while i < count
        invariant
            p == *old(pos),
            0 <= p,
            block_length >= 16,
            clen == block_length - 16,
            p + 16 + clen <= data@.len(),
            *pos == p + 16 + clen,
            ulen == crate::bytes::be_u64_spec(data@.subrange(p, p + 8)),
            count == crate::bytes::be_u64_spec(data@.subrange(p + 8, p + 16)),
            stream@ == geom_stream(data@, p, block_length),
            ulen != clen ==> ulen <= usize::MAX && zlib_inflate(
                data@.subrange(p + 16, p + 16 + clen),
                ulen as nat,
            ) is Some,
            0 <= i <= count,
            entries_g@.len() == i,
            spos <= stream@.len(),
            full == geom_entries_at(stream@, 0, count as nat),
            full == (match geom_entries_at(stream@, spos as int, (count - i) as nat) {
                None => None::<Seq<u64>>,
                Some(rest) => Some(entries_g@ + rest),
            }),
            vl.lengths@.len() == i,
            forall|j: int|
                0 <= j < i ==> vl.lengths@[j] == geom_length_byte(#[trigger] entries_g@[j]),
            forall|j: int| 0 <= j < i ==> #[trigger] entries_g@[j] <= 0xFFFFFFFF,
            forall|j: int|
                0 <= j < i && geom_length_byte(#[trigger] entries_g@[j]) == 0xFF
                    ==> vl.lengths_long@.contains_key(j as u64) && vl.lengths_long@[j as u64]
                    == entries_g@[j] as u32,
            forall|k: u64|
                #[trigger] vl.lengths_long@.contains_key(k) ==> k < i && vl.lengths@[k as int]
                    == 0xFF,
        decreases count - i,
    {
        let ghost old_spos = spos;
        let ghost map0 = vl.lengths_long@;
        let v = match read_varint(stream.as_slice(), &mut spos) {
            Ok(v) => v,
            Err(_) => { return Err(FstError::Io) },
        };
        if v == 0 {
            vl.lengths.push(VAR_LENGTH_REAL);
        } else if v == 0xFFFFFFFF {
            vl.lengths.push(0);
        } else if v >= 0xFE {
            if v > 0xFFFFFFFF {
                proof {
                    if full is Some {
                        let rest2 = geom_entries_at(
                            stream@,
                            spos as int,
                            (count - i - 1) as nat,
                        ).unwrap();
                        assert(geom_entries_at(stream@, old_spos as int, (count - i) as nat)
                            == Some(seq![v] + rest2));
                        assert((entries_g@ + (seq![v] + rest2))[i as int] == v);
                        assert(full.unwrap()[i as int] == v);
                    }
                    if geom_block_ok(data@, p, block_length) {
                        assert(geom_count(data@, p) == count);
                        assert(geom_stream(data@, p, block_length) == stream@);
                        assert(geom_entries_at(stream@, 0, count as nat) == full);
                        assert(full is Some);
                        assert(full.unwrap()[i as int] <= 0xFFFFFFFF);
                        assert(false);
                    }
                }
                return Err(FstError::Malformed);
            }
            vl.lengths.push(VAR_LENGTH_LONG);
            vl.lengths_long.insert(i, v as u32);
        } else {
            vl.lengths.push(v as u8);
        }
        proof {
            if geom_entries_at(stream@, old_spos as int, (count - i) as nat) is Some {
                let rest = geom_entries_at(stream@, old_spos as int, (count - i) as nat).unwrap();
                let rest2 = geom_entries_at(stream@, spos as int, (count - i - 1) as nat).unwrap();
                assert(rest == seq![v] + rest2);
                assert(entries_g@ + rest =~= entries_g@.push(v) + rest2);
            }
            entries_g@ = entries_g@.push(v);
            assert forall|k: u64| vl.lengths_long@.contains_key(k) implies k < i + 1
                && vl.lengths@[k as int] == 0xFF by {
                if k != i {
                    assert(map0.contains_key(k));
                }
            }
        }
        i = i + 1;
    }
    proof {
        assert(geom_entries_at(stream@, spos as int, 0) == Some(Seq::<u64>::empty()));
        assert(entries_g@ + Seq::<u64>::empty() =~= entries_g@);
        assert(geom_count(data@, p) == count);
        assert(geom_stream(data@, p, block_length) == stream@);
        let entries = geom_entries_at(stream@, 0, count as nat).unwrap();
        assert(entries == entries_g@);
        assert(geom_block_ok(data@, p, block_length));
        assert(vl.lengths@ =~= geom_lengths_of(data@, p, block_length));
        assert forall|k: u64| #[trigger]
            geom_longs_of(data@, p, block_length).contains_key(k) implies vl
            .lengths_long@.contains_key(k) by {
            assert(vl.lengths@[k as int] == geom_length_byte(entries_g@[k as int]));
        }
        assert(vl.lengths_long@ =~= geom_longs_of(data@, p, block_length));
        assert forall|ii: int|
            0 <= ii < vl.lengths@.len() && vl.lengths@[ii] == 0xFF implies vl
                .lengths_long@.contains_key(ii as u64) by {
            assert(vl.lengths@[ii] == geom_length_byte(entries_g@[ii]));
        }
        assert(vl.wf());
        assert forall|j: int| 0 <= j < entries.len() implies vl.lengths@[j] == geom_length_byte(
            #[trigger] entries[j],
        ) by {
            assert(entries[j] == entries_g@[j]);
        }
        assert forall|j: int|
            0 <= j < entries.len() && geom_length_byte(#[trigger] entries[j]) == 0xFF implies vl
                .lengths_long@.contains_key(j as u64) && vl.lengths_long@[j as u64] == entries[
            j] as u32 by {
            assert(entries[j] == entries_g@[j]);
        }
    }
    Ok(vl)
}

} // verus!

//! Decoding of signal values from the wire: ASCII-coded values, packed
//! binary values, the dual encoding of single-bit signals, and the
//! per-variable change stream of a value-change block's waves region.

use crate::error::FstError;
use crate::geometry::VarLength;
use crate::valvec::{pack_byte, pack_symbols, Value};
use crate::varint::{lemma_varint_parse_at_range, read_varint, varint_parse_at};
use vstd::prelude::*;

verus! {

/// The bytes FST uses for value characters: '0', '1', 'x', 'X', 'z', 'Z'.
pub open spec fn is_ascii_bit(c: u8) -> bool {
    c == 0x30 || c == 0x31 || c == 0x58 || c == 0x78 || c == 0x5A || c == 0x7A
}

/// The two-bit symbol a value character denotes: 0, 1, X=2, Z=3.
pub open spec fn ascii_symbol(c: u8) -> u8 {
    let hi = (c | (c >> 1) | (c >> 2)) & 0x02;
    let lo = if hi == 0 {
        c & 1
    } else {
        (c >> 1) & 1
    };
    hi | lo
}

/// The symbols of a whole character string.
pub open spec fn ascii_symbols(s: Seq<u8>) -> Seq<u8> {
    Seq::new(s.len(), |i: int| ascii_symbol(s[i]))
}

/// The low nibble of a packed byte, its bits interleaved with zeros: four
/// two-bit symbols over {0, 1}.
pub open spec fn expand_lo(b: u8) -> u8 {
    ((b & 8) << 3) | ((b & 4) << 2) | ((b & 2) << 1) | (b & 1)
}

/// The high nibble of a packed byte, its bits interleaved with zeros.
pub open spec fn expand_hi(b: u8) -> u8 {
    ((b & 128) >> 1) | ((b & 64) >> 2) | ((b & 32) >> 3) | ((b & 16) >> 4)
}

/// The `vbytes`-byte expansion of packed binary bytes: byte `j` holds the
/// interleaved low nibble of source byte `j / 2` when `j` is even, else its
/// high nibble.
pub open spec fn packed_expand(s: Seq<u8>, vbytes: int) -> Seq<u8> {
    Seq::new(
        vbytes as nat,
        |j: int|
            if j % 2 == 0 {
                expand_lo(s[j / 2])
            } else {
                expand_hi(s[j / 2])
            },
    )
}

/// The two-bit symbol of one value character, computed as the spec says.
fn ascii_symbol_exec(c: u8) -> (r: u8)
    ensures
        r == ascii_symbol(c),
{
    let hi = (c | (c >> 1) | (c >> 2)) & 0x02;
    let lo = if hi == 0 {
        c & 1
    } else {
        (c >> 1) & 1
    };
    hi | lo
}

/// Read one ASCII-coded value of the given length at the cursor: `bits`
/// characters over {0,1,X,Z} packed four symbols per byte, or the 8 raw
/// bytes of a real.  A character outside the set is `UnsupportedFormat`;
/// the input ending first is `Io`.  The cursor does not move on failure.
pub fn value_from_ascii(data: &[u8], pos: &mut usize, var_length: VarLength) -> (r: Result<
    Value,
    FstError,
>)
    ensures
        match r {
            Ok(v) => match var_length {
                VarLength::Bits(bits) => {
                    &&& *old(pos) + bits <= data@.len()
                    &&& (forall|i: int|
                        *old(pos) <= i < *old(pos) + bits ==> is_ascii_bit(#[trigger] data@[i]))
                    &&& v@ == pack_symbols(
                        ascii_symbols(data@.subrange(*old(pos) as int, *old(pos) + bits)),
                    )
                    &&& *final(pos) == *old(pos) + bits
                },
                VarLength::Real => {
                    &&& *old(pos) + 8 <= data@.len()
                    &&& v@ == data@.subrange(*old(pos) as int, *old(pos) + 8)
                    &&& *final(pos) == *old(pos) + 8
                },
            },
            Err(e) => {
                &&& *final(pos) == *old(pos)
                &&& (e == FstError::Io || e == FstError::UnsupportedFormat)
                &&& (var_length matches VarLength::Bits(bits) ==> ((e == FstError::Io <==> *old(
                    pos,
                ) + bits > data@.len()) && (e == FstError::UnsupportedFormat <==> (*old(pos) + bits
                    <= data@.len() && exists|i: int|
                    *old(pos) <= i < *old(pos) + bits && !is_ascii_bit(#[trigger] data@[i])))))
                &&& (var_length is Real ==> e == FstError::Io && *old(pos) + 8 > data@.len())
            },
        },
{
    match var_length {
        VarLength::Bits(bits) => {
            let start = *pos;
            if start > data.len() || bits as u64 > (data.len() - start) as u64 {
                return Err(FstError::Io);
            }
            let nbits = bits as usize;
            let mut i: usize = 0;
            while i < nbits
                invariant
                    start == *old(pos),
                    *pos == *old(pos),
                    var_length == VarLength::Bits(bits),
                    nbits == bits,
                    start + nbits <= data@.len(),
                    start + nbits <= usize::MAX,
                    i <= nbits,
                    forall|q: int| start <= q < start + i ==> is_ascii_bit(#[trigger] data@[q]),
                decreases nbits - i,
            {
                let c = data[start + i];
                if !(c == 0x30 || c == 0x31 || c == 0x58 || c == 0x78 || c == 0x5A || c == 0x7A) {
                    proof {
                        assert(!is_ascii_bit(data@[start + i]));
                    }
                    return Err(FstError::UnsupportedFormat);
                }
                i = i + 1;
            }
            let ghost syms = ascii_symbols(data@.subrange(start as int, start + nbits));
            let vbytes = nbits / 4 + (if nbits % 4 != 0 {
                1
            } else {
                0
            });
            let mut out: Vec<u8> = Vec::new();
            let mut j: usize = 0;
            while j < vbytes
                invariant
                    start == *old(pos),
                    *pos == *old(pos),
                    var_length == VarLength::Bits(bits),
                    start + nbits <= data@.len(),
                    start + nbits <= usize::MAX,
                    nbits == bits,
                    vbytes == (nbits + 3) / 4,
                    syms == ascii_symbols(data@.subrange(start as int, start + nbits)),
                    j <= vbytes,
                    out@.len() == j,
                    forall|jj: int| 0 <= jj < j ==> out@[jj] == pack_byte(syms, jj),
                decreases vbytes - j,
            {
                let base = 4 * j;
                let s0 = if base < nbits {
                    ascii_symbol_exec(data[start + base])
                } else {
                    0
                };
                let s1 = if nbits - base > 1 {
                    ascii_symbol_exec(data[start + base + 1])
                } else {
                    0
                };
                let s2 = if nbits - base > 2 {
                    ascii_symbol_exec(data[start + base + 2])
                } else {
                    0
                };
                let s3 = if nbits - base > 3 {
                    ascii_symbol_exec(data[start + base + 3])
                } else {
                    0
                };
                let byte = s0 | (s1 << 2) | (s2 << 4) | (s3 << 6);
                proof {
                    assert(byte == pack_byte(syms, j as int));
                }
                out.push(byte);
                j = j + 1;
            }
            *pos = start + nbits;
            proof {
                assert(out@ =~= pack_symbols(syms));
            }
            Ok(Value(out))
        },
        VarLength::Real => {
            let start = *pos;
            if start > data.len() || 8 > data.len() - start {
                return Err(FstError::Io);
            }
            let raw = match crate::bytes::read_bytes(data, pos, 8) {
                Ok(v) => v,
                Err(e) => { return Err(e) },
            };
            Ok(Value(raw))
        },
    }
}

/// Read a packed binary value at the cursor: `ceil(bits / 8)` bytes, each
/// expanded into two output bytes by interleaving its nibbles' bits with
/// zeros, truncated to the value's `ceil(bits / 4)` packed bytes.  The
/// cursor does not move on failure.
pub fn value_from_packed_bits(data: &[u8], pos: &mut usize, bits: u32) -> (r: Result<
    Value,
    FstError,
>)
    ensures
        match r {
            Ok(v) => {
                &&& *old(pos) + (bits + 7) / 8 <= data@.len()
                &&& v@ == packed_expand(
                    data@.subrange(*old(pos) as int, *old(pos) + (bits + 7) / 8),
                    (bits + 3) / 4,
                )
                &&& *final(pos) == *old(pos) + (bits + 7) / 8
            },
            Err(e) => {
                &&& e == FstError::Io
                &&& *final(pos) == *old(pos)
                &&& *old(pos) + (bits + 7) / 8 > data@.len()
            },
        },
{
    let start = *pos;
    let nbytes = (bits as u64 / 8 + (if bits % 8 != 0 {
        1u64
    } else {
        0u64
    })) as usize;
    if start > data.len() || nbytes as u64 > (data.len() - start) as u64 {
        return Err(FstError::Io);
    }
    let vbytes = (bits as u64 / 4 + (if bits % 4 != 0 {
        1u64
    } else {
        0u64
    })) as usize;
    let ghost packed = data@.subrange(start as int, start + nbytes);
    let mut out: Vec<u8> = Vec::new();
    let mut j: usize = 0;
    while j < vbytes
        invariant
            start + nbytes <= data@.len(),
            start + nbytes <= usize::MAX,
            nbytes == (bits + 7) / 8,
            vbytes == (bits + 3) / 4,
            packed == data@.subrange(start as int, start + nbytes),
            j <= vbytes,
            out@.len() == j,
            forall|jj: int|
                0 <= jj < j ==> out@[jj] == (if jj % 2 == 0 {
                    expand_lo(packed[jj / 2])
                } else {
                    expand_hi(packed[jj / 2])
                }),
        decreases vbytes - j,
    {
        let m = j / 2;
        proof {
            assert(m < nbytes);
        }
        let b = data[start + m];
        let byte = if j % 2 == 0 {
            ((b & 8) << 3) | ((b & 4) << 2) | ((b & 2) << 1) | (b & 1)
        } else {
            ((b & 128) >> 1) | ((b & 64) >> 2) | ((b & 32) >> 3) | ((b & 16) >> 4)
        };
        out.push(byte);
        j = j + 1;
    }
    *pos = start + nbytes;
    proof {
        assert(out@ =~= packed_expand(packed, (bits + 3) / 4));
    }
    Ok(Value(out))
}

/// One value change of a variable within a decompressed waves payload,
/// starting at index `i`: the value's packed bytes, the time-index delta,
/// and the index just past the change.  `None` when the payload is
/// malformed or holds 9-valued logic beyond {0,1,X,Z}.
///
/// Single-bit variables use a dual encoding folding the value into one
/// varint; wider variables follow a varint header with packed binary bytes
/// or ASCII characters; reals follow it with 8 raw bytes.
pub open spec fn wave_step(s: Seq<u8>, i: int, vl: VarLength) -> Option<(Seq<u8>, u64, int)> {
    match varint_parse_at(s, i, 0, 0) {
        None => None,
        Some((w, end)) => match vl {
            VarLength::Bits(b) => {
                if b == 1 {
                    if w & 1 == 0 {
                        Some(
                            (
                                seq![
                                    if w & 2 == 0 {
                                        0u8
                                    } else {
                                        1u8
                                    },
                                ],
                                w >> 2,
                                end,
                            ),
                        )
                    } else {
                        if w & 0x0e == 0 {
                            Some((seq![2u8], w >> 4, end))
                        } else if w & 0x0e == 2 {
                            Some((seq![3u8], w >> 4, end))
                        } else {
                            None
                        }
                    }
                } else {
                    if w & 1 == 0 {
                        if end + (b + 7) / 8 > s.len() {
                            None
                        } else {
                            Some(
                                (
                                    packed_expand(
                                        s.subrange(end, end + (b + 7) / 8),
                                        (b + 3) / 4,
                                    ),
                                    w >> 1,
                                    end + (b + 7) / 8,
                                ),
                            )
                        }
                    } else {
                        if end + b > s.len() {
                            None
                        } else if exists|q: int| end <= q < end + b && !is_ascii_bit(
                            #[trigger] s[q],
                        ) {
                            None
                        } else {
                            Some(
                                (
                                    pack_symbols(ascii_symbols(s.subrange(end, end + b))),
                                    w >> 1,
                                    end + b,
                                ),
                            )
                        }
                    }
                }
            },
            VarLength::Real => {
                if end + 8 > s.len() {
                    None
                } else {
                    Some((s.subrange(end, end + 8), w >> 1, end + 8))
                }
            },
        },
    }
}

/// Read one value change at the cursor.  Succeeds exactly when the payload
/// holds a well-formed change there (`wave_step`), returning its value and
/// time-index delta and leaving the cursor just past it.
pub fn read_wave_step(data: &[u8], pos: &mut usize, var_length: VarLength) -> (r: Result<
    (Value, u64),
    FstError,
>)
    ensures
        match r {
            Ok((v, delta)) => {
                &&& wave_step(data@, *old(pos) as int, var_length) is Some
                &&& ({
                    let (val, d, end) = wave_step(data@, *old(pos) as int, var_length).unwrap();
                    &&& v@ == val
                    &&& delta == d
                    &&& *final(pos) == end
                    &&& *old(pos) < end <= data@.len()
                })
            },
            Err(e) => wave_step(data@, *old(pos) as int, var_length) is None && (e == FstError::Io
                || e == FstError::Malformed || e == FstError::UnsupportedFormat),
        },
{
    let w = match read_varint(data, pos) {
        Ok(w) => w,
        Err(e) => { return Err(e) },
    };
    match var_length {
        VarLength::Bits(b) => {
            if b == 1 {
                if w & 1 == 0 {
                    let bit: u8 = if w & 2 == 0 {
                        0
                    } else {
                        1
                    };
                    let mut out: Vec<u8> = Vec::new();
                    out.push(bit);
                    proof {
                        assert(out@ =~= seq![bit]);
                    }
                    Ok((Value(out), w >> 2))
                } else {
                    let code = w & 0x0e;
                    if code == 0 || code == 2 {
                        let sym: u8 = if code == 0 {
                            2
                        } else {
                            3
                        };
                        let mut out: Vec<u8> = Vec::new();
                        out.push(sym);
                        proof {
                            assert(out@ =~= seq![sym]);
                        }
                        Ok((Value(out), w >> 4))
                    } else {
                        Err(FstError::UnsupportedFormat)
                    }
                }
            } else {
                if w & 1 == 0 {
                    let v = match value_from_packed_bits(data, pos, b) {
                        Ok(v) => v,
                        Err(e) => { return Err(e) },
                    };
                    Ok((v, w >> 1))
                } else {
                    let v = match value_from_ascii(data, pos, VarLength::Bits(b)) {
                        Ok(v) => v,
                        Err(e) => { return Err(e) },
                    };
                    Ok((v, w >> 1))
                }
            }
        },
        VarLength::Real => {
            let raw = match crate::bytes::read_bytes(data, pos, 8) {
                Ok(v) => v,
                Err(e) => { return Err(e) },
            };
            Ok((Value(raw), w >> 1))
        },
    }
}

/// A well-formed change consumes at least one byte and stays within the
/// payload.
pub proof fn lemma_wave_step_range(s: Seq<u8>, i: int, vl: VarLength)
    requires
        wave_step(s, i, vl) is Some,
    ensures
        i < wave_step(s, i, vl).unwrap().2 <= s.len(),
{
    lemma_varint_parse_at_range(s, i, 0, 0);
}

/// The full change list a decompressed waves payload holds from index `i`,
/// as (time, value) pairs: time-index deltas accumulate onto `tidx` and
/// index into the block's `times` vector.  `None` when a change is
/// malformed or a time index falls outside `times`.
pub open spec fn wave_changes(
    s: Seq<u8>,
    i: int,
    vl: VarLength,
    times: Seq<u64>,
    tidx: u64,
) -> Option<Seq<(u64, Seq<u8>)>>
    decreases s.len() - i,
        via wave_changes_decreases
{
    if i >= s.len() {
        Some(Seq::empty())
    } else {
        match wave_step(s, i, vl) {
            None => None,
            Some((val, delta, end)) => {
                if tidx + delta > u64::MAX || tidx + delta >= times.len() {
                    None
                } else {
                    match wave_changes(s, end, vl, times, (tidx + delta) as u64) {
                        None => None,
                        Some(rest) => Some(seq![(times[tidx + delta], val)] + rest),
                    }
                }
            },
        }
    }
}

#[via_fn]
proof fn wave_changes_decreases(s: Seq<u8>, i: int, vl: VarLength, times: Seq<u64>, tidx: u64) {
    if i < s.len() && wave_step(s, i, vl) is Some {
        lemma_wave_step_range(s, i, vl);
    }
}

/// Decode a whole decompressed waves payload, appending each change as a
/// `(time, value)` pair to `wave`.  Succeeds exactly when the payload's
/// change list is well formed (`wave_changes`); `wave` then grows by
/// exactly that list.
pub fn decode_wave_payload(
    payload: &[u8],
    var_length: VarLength,
    times: &Vec<u64>,
    wave: &mut crate::valvec::ValAndTimeVec,
) -> (r: Result<(), FstError>)
    ensures
        match r {
            Ok(u) => {
                &&& wave_changes(payload@, 0, var_length, times@, 0) is Some
                &&& ({
                    let changes = wave_changes(payload@, 0, var_length, times@, 0).unwrap();
                    &&& final(wave)@.len() == old(wave)@.len() + changes.len()
                    &&& (forall|k: int|
                        0 <= k < old(wave)@.len() ==> #[trigger] final(wave)@[k] == old(wave)@[k])
                    &&& (forall|k: int|
                        0 <= k < changes.len() ==> (#[trigger] final(wave)@[old(wave)@.len()
                            + k]).0 == changes[k].0 && final(wave)@[old(wave)@.len() + k].1@
                            == changes[k].1)
                })
            },
            Err(e) => wave_changes(payload@, 0, var_length, times@, 0) is None && (e
                == FstError::Io || e == FstError::Malformed || e == FstError::UnsupportedFormat),
        },
{
    let ghost target = wave_changes(payload@, 0, var_length, times@, 0);
    let mut pos: usize = 0;
    let mut tidx: u64 = 0;
    let mut pushed_g: Ghost<Seq<(u64, Seq<u8>)>> = Ghost(Seq::empty());
    while pos < payload.len()
        invariant
            pos <= payload@.len(),
            target == wave_changes(payload@, 0, var_length, times@, 0),
            target == (match wave_changes(payload@, pos as int, var_length, times@, tidx) {
                None => None::<Seq<(u64, Seq<u8>)>>,
                Some(rest) => Some(pushed_g@ + rest),
            }),
            wave@.len() == old(wave)@.len() + pushed_g@.len(),
            forall|k: int| 0 <= k < old(wave)@.len() ==> #[trigger] wave@[k] == old(wave)@[k],
            forall|k: int|
                0 <= k < pushed_g@.len() ==> (#[trigger] wave@[old(wave)@.len() + k]).0
                    == pushed_g@[k].0 && wave@[old(wave)@.len() + k].1@ == pushed_g@[k].1,
        decreases payload@.len() - pos,
    {
        let (v, delta) = match read_wave_step(payload, &mut pos, var_length) {
            Ok(x) => x,
            Err(e) => { return Err(e) },
        };
        let t2 = match tidx.checked_add(delta) {
            Some(t) => t,
            None => { return Err(FstError::Malformed) },
        };
        if t2 >= times.len() as u64 {
            return Err(FstError::Malformed);
        }
        let time = times[t2 as usize];
        proof {
            if wave_changes(payload@, pos as int, var_length, times@, t2) is Some {
                let rest2 = wave_changes(payload@, pos as int, var_length, times@, t2).unwrap();
                assert((pushed_g@ + (seq![(times@[t2 as int], v@)] + rest2)) =~= (pushed_g@.push(
                    (times@[t2 as int], v@),
                ) + rest2));
            }
            pushed_g@ = pushed_g@.push((time, v@));
        }
        wave.push((time, v));
        tidx = t2;
    }
    proof {
        assert(wave_changes(payload@, pos as int, var_length, times@, tidx) == Some(
            Seq::<(u64, Seq<u8>)>::empty(),
        ));
        assert(pushed_g@ + Seq::<(u64, Seq<u8>)>::empty() =~= pushed_g@);
    }
    Ok(())
}

} // verus!

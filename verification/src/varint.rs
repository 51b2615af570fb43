//! LEB128-style variable-length integer codec.
//!
//! Bytes carry 7 payload bits each, least-significant group first; the high
//! bit of a byte signals continuation.  An encoding is at most 10 bytes long
//! (the 10th byte carries a single payload bit).  The signed flavour uses the
//! final byte's bit 6 as a sign bit: when it is set, every bit of the value
//! above the consumed payload is set to 1.

use crate::error::FstError;
use vstd::prelude::*;

verus! {

/// Unsigned varint parse of `s` starting at index `i`, with `acc` holding the
/// payload accumulated so far at bit offset `shift`.  Yields the value and the
/// index just past the final byte, or `None` when the input runs out or the
/// shift reaches 64 before a terminating byte.
pub open spec fn varint_parse_at(s: Seq<u8>, i: int, shift: u64, acc: u64) -> Option<(u64, int)>
    decreases s.len() - i,
{
    if i < 0 || i >= s.len() {
        None
    } else if shift >= 64 {
        None
    } else {
        let b = s[i];
        let acc2 = acc | (((b & 0x7f) as u64) << shift);
        if b & 0x80 == 0 {
            Some((acc2, i + 1))
        } else {
            varint_parse_at(s, i + 1, (shift + 7) as u64, acc2)
        }
    }
}

/// Unsigned varint parse of the whole of `s` from its start.
pub open spec fn varint_parse(s: Seq<u8>) -> Option<(u64, int)> {
    varint_parse_at(s, 0, 0, 0)
}

/// Signed varint parse of `s` starting at index `i`.  The layout matches the
/// unsigned parse; on the final byte, if bit 6 is set, all value bits above
/// `shift + 7` (none when that exceeds 63) are set to 1 and the result is
/// reinterpreted as two's-complement.
pub open spec fn svarint_parse_at(s: Seq<u8>, i: int, shift: u64, acc: u64) -> Option<(i64, int)>
    decreases s.len() - i,
{
    if i < 0 || i >= s.len() {
        None
    } else if shift >= 64 {
        None
    } else {
        let b = s[i];
        let acc2 = acc | (((b & 0x7f) as u64) << shift);
        if b & 0x80 == 0 {
            if b & 0x40 != 0 && shift + 7 < 64 {
                Some(((acc2 | (u64::MAX << ((shift + 7) as u64))) as i64, i + 1))
            } else {
                Some((acc2 as i64, i + 1))
            }
        } else {
            svarint_parse_at(s, i + 1, (shift + 7) as u64, acc2)
        }
    }
}

/// Signed varint parse of the whole of `s` from its start.
pub open spec fn svarint_parse(s: Seq<u8>) -> Option<(i64, int)> {
    svarint_parse_at(s, 0, 0, 0)
}

/// The canonical unsigned encoding: 7 bits per byte, low group first, high
/// bit set on every byte but the last.
pub open spec fn varint_encode(v: u64) -> Seq<u8>
    decreases v,
        via varint_encode_decreases
{
    if v < 0x80 {
        seq![v as u8]
    } else {
        seq![((v & 0x7f) | 0x80) as u8] + varint_encode(v >> 7)
    }
}

#[via_fn]
proof fn varint_encode_decreases(v: u64) {
    assert(v >= 0x80 ==> v >> 7 < v) by (bit_vector);
}

/// The canonical signed encoding: groups of 7 bits, low first, continuing
/// while the remaining bits differ from a pure sign extension of the bits
/// already emitted.
pub open spec fn svarint_encode(v: i64) -> Seq<u8>
    decreases (if v < 0 { -(v + 1) } else { v as int }),
        via svarint_encode_decreases
{
    let b = (v as u8) & 0x7f;
    let v2 = v >> 7;
    let more = (v2 != 0 && v2 != -1) || (((v2 as u8) & 0x40) != (b & 0x40));
    if more {
        seq![b | 0x80] + svarint_encode(v2)
    } else {
        seq![b]
    }
}

#[via_fn]
proof fn svarint_encode_decreases(v: i64) {
    assert(v >= 0x40 ==> 0 <= v >> 7 < v) by (bit_vector);
    assert(v < -0x40 ==> v < v >> 7 < 0) by (bit_vector);
    assert(-0x40 <= v < 0x40 ==> (v >> 7 == 0 || v >> 7 == -1) && (((v >> 7) as u8) & 0x40) == (((
    v as u8) & 0x7f) & 0x40)) by (bit_vector);
}

/// Decode an unsigned varint from the start of `input`.  `None` when the
/// encoding overflows 64 bits of shift or the input ends first.
pub fn decode_varint(input: &[u8]) -> (r: Option<u64>)
    ensures
        r is Some <==> varint_parse(input@) is Some,
        r is Some ==> r == Some(varint_parse(input@).unwrap().0),
{
    let mut value: u64 = 0;
    let mut shift: u64 = 0;
    let mut i: usize = 0;
    while i < input.len()
        invariant
            i <= input@.len(),
            shift <= 70,
            varint_parse(input@) == varint_parse_at(input@, i as int, shift, value),
        decreases input@.len() - i,
    {
        let byte = input[i];
        if shift >= 64 {
            return None;
        }
        value = value | (((byte & 0x7f) as u64) << shift);
        if byte & 0x80 == 0 {
            return Some(value);
        }
        shift = shift + 7;
        i = i + 1;
    }
    None
}

/// Decode a signed varint from the start of `input`.  `None` when the
/// encoding overflows 64 bits of shift or the input ends first.
pub fn decode_svarint(input: &[u8]) -> (r: Option<i64>)
    ensures
        r is Some <==> svarint_parse(input@) is Some,
        r is Some ==> r == Some(svarint_parse(input@).unwrap().0),
{
    let mut value: u64 = 0;
    let mut shift: u64 = 0;
    let mut i: usize = 0;
    while i < input.len()
        invariant
            i <= input@.len(),
            shift <= 70,
            svarint_parse(input@) == svarint_parse_at(input@, i as int, shift, value),
        decreases input@.len() - i,
    {
        let byte = input[i];
        if shift >= 64 {
            return None;
        }
        value = value | (((byte & 0x7f) as u64) << shift);
        if byte & 0x80 == 0 {
            if byte & 0x40 != 0 && shift + 7 < 64 {
                value = value | (u64::MAX << (shift + 7));
            }
            return Some(value as i64);
        }
        shift = shift + 7;
        i = i + 1;
    }
    None
}

/// Read an unsigned varint at the cursor and advance past it.  The input
/// running out is `Io`; a shift overflow (11 or more continuation bytes
/// available) is `Malformed`.  The cursor does not move on failure.
pub fn read_varint(data: &[u8], pos: &mut usize) -> (r: Result<u64, FstError>)
    ensures
        match r {
            Ok(v) => {
                &&& varint_parse_at(data@, *old(pos) as int, 0, 0) == Some((
                    v,
                    *final(pos) as int,
                ))
                &&& *old(pos) < *final(pos) <= data@.len()
            },
            Err(e) => {
                &&& varint_parse_at(data@, *old(pos) as int, 0, 0) is None
                &&& *final(pos) == *old(pos)
                &&& e == (if data@.len() >= *old(pos) + 11 {
                    FstError::Malformed
                } else {
                    FstError::Io
                })
            },
        },
{
    let start = *pos;
    if start >= data.len() {
        return Err(FstError::Io);
    }
    let mut value: u64 = 0;
    let mut shift: u64 = 0;
    let mut i: usize = start;
    while i < data.len()
        invariant
            start == *old(pos),
            *pos == *old(pos),
            start <= i <= data@.len(),
            start < data@.len(),
            shift == 7 * (i - start),
            shift <= 70,
            varint_parse_at(data@, start as int, 0, 0) == varint_parse_at(
                data@,
                i as int,
                shift,
                value,
            ),
        decreases data@.len() - i,
    {
        let byte = data[i];
        if shift >= 64 {
            return Err(FstError::Malformed);
        }
        value = value | (((byte & 0x7f) as u64) << shift);
        if byte & 0x80 == 0 {
            *pos = i + 1;
            return Ok(value);
        }
        shift = shift + 7;
        i = i + 1;
    }
    Err(FstError::Io)
}

/// Read a signed varint at the cursor and advance past it.  The input
/// running out is `Io`; a shift overflow is `Malformed`.  The cursor does
/// not move on failure.
pub fn read_svarint(data: &[u8], pos: &mut usize) -> (r: Result<i64, FstError>)
    ensures
        match r {
            Ok(v) => {
                &&& svarint_parse_at(data@, *old(pos) as int, 0, 0) == Some((
                    v,
                    *final(pos) as int,
                ))
                &&& *old(pos) < *final(pos) <= data@.len()
            },
            Err(e) => {
                &&& svarint_parse_at(data@, *old(pos) as int, 0, 0) is None
                &&& *final(pos) == *old(pos)
                &&& e == (if data@.len() >= *old(pos) + 11 {
                    FstError::Malformed
                } else {
                    FstError::Io
                })
            },
        },
{
    let start = *pos;
    if start >= data.len() {
        return Err(FstError::Io);
    }
    let mut value: u64 = 0;
    let mut shift: u64 = 0;
    let mut i: usize = start;
    while i < data.len()
        invariant
            start == *old(pos),
            *pos == *old(pos),
            start <= i <= data@.len(),
            start < data@.len(),
            shift == 7 * (i - start),
            shift <= 70,
            svarint_parse_at(data@, start as int, 0, 0) == svarint_parse_at(
                data@,
                i as int,
                shift,
                value,
            ),
        decreases data@.len() - i,
    {
        let byte = data[i];
        if shift >= 64 {
            return Err(FstError::Malformed);
        }
        value = value | (((byte & 0x7f) as u64) << shift);
        if byte & 0x80 == 0 {
            if byte & 0x40 != 0 && shift + 7 < 64 {
                value = value | (u64::MAX << (shift + 7));
            }
            *pos = i + 1;
            return Ok(value as i64);
        }
        shift = shift + 7;
        i = i + 1;
    }
    Err(FstError::Io)
}

/// A successful parse consumes at least one byte and stays within the input.
pub proof fn lemma_varint_parse_at_range(s: Seq<u8>, i: int, shift: u64, acc: u64)
    requires
        varint_parse_at(s, i, shift, acc) is Some,
    ensures
        i < varint_parse_at(s, i, shift, acc).unwrap().1 <= s.len(),
    decreases s.len() - i,
{
    if !(i < 0 || i >= s.len()) && shift < 64 {
        let b = s[i];
        if b & 0x80 != 0 {
            lemma_varint_parse_at_range(
                s,
                i + 1,
                (shift + 7) as u64,
                acc | (((b & 0x7f) as u64) << shift),
            );
        }
    }
}

/// The unsigned and signed parses read the same bytes: they succeed on the
/// same inputs and end at the same position.
pub proof fn lemma_varint_svarint_agree(s: Seq<u8>, i: int, shift: u64, acc_u: u64, acc_s: u64)
    ensures
        (varint_parse_at(s, i, shift, acc_u) is Some) == (svarint_parse_at(
            s,
            i,
            shift,
            acc_s,
        ) is Some),
        varint_parse_at(s, i, shift, acc_u) is Some ==> varint_parse_at(
            s,
            i,
            shift,
            acc_u,
        ).unwrap().1 == svarint_parse_at(s, i, shift, acc_s).unwrap().1,
    decreases s.len() - i,
{
    if !(i < 0 || i >= s.len()) && shift < 64 {
        let b = s[i];
        if b & 0x80 != 0 {
            lemma_varint_svarint_agree(
                s,
                i + 1,
                (shift + 7) as u64,
                acc_u | (((b & 0x7f) as u64) << shift),
                acc_s | (((b & 0x7f) as u64) << shift),
            );
        }
    }
}

/// Encode an unsigned varint into the front of `output`, which must hold at
/// least the encoding's length (at most 10 bytes).  Returns the number of
/// bytes written; bytes past the encoding are left as they were.
pub fn encode_varint(output: &mut Vec<u8>, value: u64) -> (r: usize)
    requires
        old(output).len() >= varint_encode(value).len(),
    ensures
        1 <= r <= 10,
        r == varint_encode(value).len(),
        final(output)@.len() == old(output)@.len(),
        final(output)@.subrange(0, r as int) == varint_encode(value),
        forall|j: int| r <= j < old(output)@.len() ==> final(output)@[j] == old(output)@[j],
{
    proof {
        lemma_varint_encode_len(value);
    }
    let mut v: u64 = value;
    let mut i: usize = 0;
    loop
        invariant
            output@.len() == old(output)@.len() >= varint_encode(value).len(),
            i + varint_encode(v).len() == varint_encode(value).len() <= 10,
            varint_encode(value) == output@.subrange(0, i as int) + varint_encode(v),
            forall|j: int| i <= j < output@.len() ==> output@[j] == old(output)@[j],
        decreases varint_encode(v).len(),
    {
        let bits: u8 = (v as u8) & 0x7f;
        let v2: u64 = v >> 7;
        let more = v2 != 0;
        proof {
            assert((v >> 7 == 0) == (v < 0x80) && ((v as u8) & 0x7f) == ((v & 0x7f) as u8) && (((
            v as u8) & 0x7f) | 0x80) == (((v & 0x7f) | 0x80) as u8) && (v < 0x80 ==> ((v as u8)
                & 0x7f) == v as u8)) by (bit_vector);
        }
        if more {
            output.set(i, bits | 0x80);
            proof {
                assert(output@.subrange(0, i + 1) =~= output@.subrange(0, i as int).push(
                    ((v & 0x7f) | 0x80) as u8,
                ));
                assert(varint_encode(value) =~= output@.subrange(0, i + 1) + varint_encode(v2));
            }
            v = v2;
            i = i + 1;
        } else {
            output.set(i, bits);
            proof {
                assert(varint_encode(v) =~= seq![v as u8]);
                assert(output@.subrange(0, i + 1) =~= output@.subrange(0, i as int).push(v as u8));
                assert(output@.subrange(0, i + 1) =~= varint_encode(value));
            }
            return i + 1;
        }
    }
}

/// Encode a signed varint into the front of `output`, which must hold at
/// least the encoding's length (at most 10 bytes).  Returns the number of
/// bytes written; bytes past the encoding are left as they were.
pub fn encode_svarint(output: &mut Vec<u8>, value: i64) -> (r: usize)
    requires
        old(output).len() >= svarint_encode(value).len(),
    ensures
        1 <= r <= 10,
        r == svarint_encode(value).len(),
        final(output)@.len() == old(output)@.len(),
        final(output)@.subrange(0, r as int) == svarint_encode(value),
        forall|j: int| r <= j < old(output)@.len() ==> final(output)@[j] == old(output)@[j],
{
    proof {
        lemma_svarint_encode_len(value);
    }
    let mut v: i64 = value;
    let mut i: usize = 0;
    loop
        invariant
            output@.len() == old(output)@.len() >= svarint_encode(value).len(),
            i + svarint_encode(v).len() == svarint_encode(value).len() <= 10,
            svarint_encode(value) == output@.subrange(0, i as int) + svarint_encode(v),
            forall|j: int| i <= j < output@.len() ==> output@[j] == old(output)@[j],
        decreases svarint_encode(v).len(),
    {
        let bits: u8 = (v as u8) & 0x7f;
        let v2: i64 = v >> 7;
        let more = (v2 != 0 && v2 != -1) || ((v2 as u8) & 0x40) != (bits & 0x40);
        if more {
            output.set(i, bits | 0x80);
            proof {
                assert(output@.subrange(0, i + 1) =~= output@.subrange(0, i as int).push(
                    bits | 0x80,
                ));
                assert(varint_encode(value as u64).len() >= 0);
                assert(svarint_encode(value) =~= output@.subrange(0, i + 1) + svarint_encode(v2));
            }
            v = v2;
            i = i + 1;
        } else {
            output.set(i, bits);
            proof {
                assert(svarint_encode(v) =~= seq![bits]);
                assert(output@.subrange(0, i + 1) =~= output@.subrange(0, i as int).push(bits));
                assert(output@.subrange(0, i + 1) =~= svarint_encode(value));
            }
            return i + 1;
        }
    }
}

/// The number of bytes the unsigned encoding of `value` occupies, between 1
/// and 10.
pub fn varint_length(value: u64) -> (r: u8)
    ensures
        1 <= r <= 10,
        r == varint_encode(value).len(),
{
    proof {
        lemma_varint_encode_len(value);
    }
    let mut v: u64 = value;
    let mut x: u8 = 1;
    loop
        invariant
            1 <= x <= 10,
            x - 1 + varint_encode(v).len() == varint_encode(value).len() <= 10,
        decreases varint_encode(v).len(),
    {
        let v2: u64 = v >> 7;
        proof {
            assert((v >> 7 == 0) == (v < 0x80) && (v2 >> 7 == 0) == (v2 < 0x80)) by (bit_vector)
                requires
                    v2 == v >> 7,
            ;
            if v2 != 0 {
                assert(varint_encode(v).len() == 1 + varint_encode(v2).len());
                assert(varint_encode(v2).len() >= 1);
            }
        }
        if v2 == 0 {
            return x;
        }
        v = v2;
        x = x + 1;
    }
}

/// An encoding never has fewer than 1 or more than 10 bytes.
pub proof fn lemma_varint_encode_len(v: u64)
    ensures
        1 <= varint_encode(v).len() <= 10,
{
    let v1 = v >> 7;
    let v2 = v1 >> 7;
    let v3 = v2 >> 7;
    let v4 = v3 >> 7;
    let v5 = v4 >> 7;
    let v6 = v5 >> 7;
    let v7 = v6 >> 7;
    let v8 = v7 >> 7;
    let v9 = v8 >> 7;
    assert(((((((((v >> 7) >> 7) >> 7) >> 7) >> 7) >> 7) >> 7) >> 7) >> 7 < 0x80) by (bit_vector);
    assert(varint_encode(v9).len() == 1);
    assert(varint_encode(v8).len() <= 2);
    assert(varint_encode(v7).len() <= 3);
    assert(varint_encode(v6).len() <= 4);
    assert(varint_encode(v5).len() <= 5);
    assert(varint_encode(v4).len() <= 6);
    assert(varint_encode(v3).len() <= 7);
    assert(varint_encode(v2).len() <= 8);
    assert(varint_encode(v1).len() <= 9);
    assert(varint_encode(v).len() <= 10);
}

/// A signed encoding never has fewer than 1 or more than 10 bytes.
pub proof fn lemma_svarint_encode_len(v: i64)
    ensures
        1 <= svarint_encode(v).len() <= 10,
{
    let v1 = v >> 7;
    let v2 = v1 >> 7;
    let v3 = v2 >> 7;
    let v4 = v3 >> 7;
    let v5 = v4 >> 7;
    let v6 = v5 >> 7;
    let v7 = v6 >> 7;
    let v8 = v7 >> 7;
    let v9 = v8 >> 7;
    assert({
        let w = ((((((((v >> 7) >> 7) >> 7) >> 7) >> 7) >> 7) >> 7) >> 7) >> 7;
        (w >> 7 == 0 || w >> 7 == -1) && (((w >> 7) as u8) & 0x40) == (((w as u8) & 0x7f) & 0x40)
            && (w == 0 || w == -1)
    }) by (bit_vector);
    assert(svarint_encode(v9).len() == 1);
    assert(svarint_encode(v8).len() <= 2);
    assert(svarint_encode(v7).len() <= 3);
    assert(svarint_encode(v6).len() <= 4);
    assert(svarint_encode(v5).len() <= 5);
    assert(svarint_encode(v4).len() <= 6);
    assert(svarint_encode(v3).len() <= 7);
    assert(svarint_encode(v2).len() <= 8);
    assert(svarint_encode(v1).len() <= 9);
    assert(svarint_encode(v).len() <= 10);
}

proof fn lemma_varint_parse_encode_gen(s: Seq<u8>, i: int, shift: u64, v: u64, w: u64)
    requires
        0 <= i,
        i + varint_encode(w).len() <= s.len(),
        s.subrange(i, i + varint_encode(w).len() as int) == varint_encode(w),
        shift < 64,
        w == v >> shift,
    ensures
        varint_parse_at(s, i, shift, (v & (((1u64 << shift) - 1) as u64))) == Some((
            v,
            i + varint_encode(w).len(),
        )),
    decreases varint_encode(w).len(),
{
    let acc = v & (((1u64 << shift) - 1) as u64);
    let enc = varint_encode(w);
    assert(s[i] == enc[0]) by {
        assert(s.subrange(i, i + enc.len() as int)[0] == s[i]);
    }
    if w < 0x80 {
        let b = w as u8;
        assert(b & 0x80 == 0 && (acc | (((b & 0x7f) as u64) << shift)) == v) by (bit_vector)
            requires
                shift < 64,
                w == v >> shift,
                w < 0x80,
                b == w as u8,
                acc == (v & (((1u64 << shift) - 1) as u64)),
        ;
    } else {
        let b0 = ((w & 0x7f) | 0x80) as u8;
        let w2 = w >> 7;
        let enc2 = varint_encode(w2);
        let shift2 = (shift + 7) as u64;
        assert(b0 & 0x80 != 0) by (bit_vector)
            requires
                b0 == ((w & 0x7f) | 0x80) as u8,
        ;
        assert(shift <= 56) by (bit_vector)
            requires
                shift < 64,
                w == v >> shift,
                w >= 0x80,
        ;
        assert(w2 == v >> shift2) by (bit_vector)
            requires
                w2 == w >> 7,
                w == v >> shift,
                shift <= 56,
                shift2 == shift + 7,
        ;
        let acc2 = acc | (((b0 & 0x7f) as u64) << shift);
        assert(acc2 == (v & (((1u64 << shift2) - 1) as u64))) by (bit_vector)
            requires
                acc2 == acc | (((b0 & 0x7f) as u64) << shift),
                acc == (v & (((1u64 << shift) - 1) as u64)),
                b0 == ((w & 0x7f) | 0x80) as u8,
                w == v >> shift,
                shift <= 56,
                shift2 == shift + 7,
        ;
        assert(s.subrange(i + 1, i + 1 + enc2.len() as int) =~= enc2) by {
            assert forall|j: int| 0 <= j < enc2.len() implies s.subrange(
                i + 1,
                i + 1 + enc2.len() as int,
            )[j] == enc2[j] by {
                assert(s.subrange(i, i + enc.len() as int)[j + 1] == s[i + 1 + j]);
                assert(enc[j + 1] == enc2[j]);
            }
        }
        lemma_varint_parse_encode_gen(s, i + 1, shift2, v, w2);
    }
}

proof fn lemma_svarint_parse_encode_gen(s: Seq<u8>, i: int, shift: u64, v: i64, w: i64)
    requires
        0 <= i,
        i + svarint_encode(w).len() <= s.len(),
        s.subrange(i, i + svarint_encode(w).len() as int) == svarint_encode(w),
        shift < 64,
        w == v >> shift,
    ensures
        svarint_parse_at(s, i, shift, ((v as u64) & (((1u64 << shift) - 1) as u64))) == Some((
            v,
            i + svarint_encode(w).len(),
        )),
    decreases svarint_encode(w).len(),
{
    let acc = (v as u64) & (((1u64 << shift) - 1) as u64);
    let enc = svarint_encode(w);
    let b = (w as u8) & 0x7f;
    let w2 = w >> 7;
    let more = (w2 != 0 && w2 != -1) || (((w2 as u8) & 0x40) != (b & 0x40));
    assert(s[i] == enc[0]) by {
        assert(s.subrange(i, i + enc.len() as int)[0] == s[i]);
    }
    if !more {
        assert(b & 0x80 == 0) by (bit_vector)
            requires
                b == (w as u8) & 0x7f,
        ;
        let acc2 = acc | (((b & 0x7f) as u64) << shift);
        if b & 0x40 != 0 && shift + 7 < 64 {
            assert((acc2 | (u64::MAX << ((shift + 7) as u64))) as i64 == v) by (bit_vector)
                requires
                    acc2 == (((v as u64) & (((1u64 << shift) - 1) as u64)) | (((b & 0x7f) as u64)
                        << shift)),
                    b == (w as u8) & 0x7f,
                    w == v >> shift,
                    shift < 64,
                    shift + 7 < 64,
                    b & 0x40 != 0,
                    (w2 == 0 || w2 == -1),
                    ((w2 as u8) & 0x40) == (b & 0x40),
                    w2 == w >> 7,
            ;
        } else {
            assert(acc2 as i64 == v) by (bit_vector)
                requires
                    acc2 == (((v as u64) & (((1u64 << shift) - 1) as u64)) | (((b & 0x7f) as u64)
                        << shift)),
                    b == (w as u8) & 0x7f,
                    w == v >> shift,
                    shift < 64,
                    !(b & 0x40 != 0 && shift + 7 < 64),
                    (w2 == 0 || w2 == -1),
                    ((w2 as u8) & 0x40) == (b & 0x40),
                    w2 == w >> 7,
            ;
        }
    } else {
        let b0 = b | 0x80;
        let enc2 = svarint_encode(w2);
        let shift2 = (shift + 7) as u64;
        assert(b0 & 0x80 != 0 && (b0 & 0x7f) == b) by (bit_vector)
            requires
                b0 == b | 0x80,
                b == (w as u8) & 0x7f,
        ;
        assert(shift <= 56) by (bit_vector)
            requires
                shift < 64,
                w == v >> shift,
                w2 == w >> 7,
                b == (w as u8) & 0x7f,
                ((w2 != 0 && w2 != -1) || (((w2 as u8) & 0x40) != (b & 0x40))),
        ;
        assert(w2 == v >> shift2) by (bit_vector)
            requires
                w2 == w >> 7,
                w == v >> shift,
                shift <= 56,
                shift2 == shift + 7,
        ;
        let acc2 = acc | (((b0 & 0x7f) as u64) << shift);
        assert(acc2 == ((v as u64) & (((1u64 << shift2) - 1) as u64))) by (bit_vector)
            requires
                acc2 == acc | (((b0 & 0x7f) as u64) << shift),
                acc == ((v as u64) & (((1u64 << shift) - 1) as u64)),
                b0 == b | 0x80,
                b == (w as u8) & 0x7f,
                w == v >> shift,
                shift <= 56,
                shift2 == shift + 7,
        ;
        assert(s.subrange(i + 1, i + 1 + enc2.len() as int) =~= enc2) by {
            assert forall|j: int| 0 <= j < enc2.len() implies s.subrange(
                i + 1,
                i + 1 + enc2.len() as int,
            )[j] == enc2[j] by {
                assert(s.subrange(i, i + enc.len() as int)[j + 1] == s[i + 1 + j]);
                assert(enc[j + 1] == enc2[j]);
            }
        }
        lemma_svarint_parse_encode_gen(s, i + 1, shift2, v, w2);
    }
}

/// Round trip at an offset: wherever an unsigned encoding of `v` sits in a
/// byte sequence, parsing there yields exactly `v` and consumes exactly the
/// encoding.
pub proof fn lemma_varint_round_trip_at(s: Seq<u8>, i: int, v: u64)
    requires
        0 <= i,
        i + varint_encode(v).len() <= s.len(),
        s.subrange(i, i + varint_encode(v).len() as int) == varint_encode(v),
    ensures
        varint_parse_at(s, i, 0, 0) == Some((v, i + varint_encode(v).len())),
{
    assert(v >> 0u64 == v && (v & (((1u64 << 0u64) - 1) as u64)) == 0) by (bit_vector);
    lemma_varint_parse_encode_gen(s, i, 0, v, v);
}

/// For every value, decoding its unsigned encoding gives the value back and
/// consumes every encoded byte.
pub proof fn lemma_varint_round_trip(v: u64)
    ensures
        varint_parse(varint_encode(v)) == Some((v, varint_encode(v).len() as int)),
{
    let enc = varint_encode(v);
    assert(enc.subrange(0, enc.len() as int) =~= enc);
    lemma_varint_round_trip_at(enc, 0, v);
}

/// Round trip at an offset for the signed encoding.
pub proof fn lemma_svarint_round_trip_at(s: Seq<u8>, i: int, v: i64)
    requires
        0 <= i,
        i + svarint_encode(v).len() <= s.len(),
        s.subrange(i, i + svarint_encode(v).len() as int) == svarint_encode(v),
    ensures
        svarint_parse_at(s, i, 0, 0) == Some((v, i + svarint_encode(v).len())),
{
    assert(v >> 0u64 == v && ((v as u64) & (((1u64 << 0u64) - 1) as u64)) == 0) by (bit_vector);
    lemma_svarint_parse_encode_gen(s, i, 0, v, v);
}

/// For every value, decoding its signed encoding gives the value back and
/// consumes every encoded byte.
pub proof fn lemma_svarint_round_trip(v: i64)
    ensures
        svarint_parse(svarint_encode(v)) == Some((v, svarint_encode(v).len() as int)),
{
    let enc = svarint_encode(v);
    assert(enc.subrange(0, enc.len() as int) =~= enc);
    lemma_svarint_round_trip_at(enc, 0, v);
}

} // verus!

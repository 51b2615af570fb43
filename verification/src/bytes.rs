//! Primitive reads from a byte image through a cursor position.
//!
//! Every multi-byte integer in an FST file is big-endian except the header's
//! real-endianness sentinel, which is stored little-endian.

use crate::error::FstError;
use vstd::prelude::*;

verus! {

/// The unsigned 64-bit value held by eight big-endian bytes.
pub open spec fn be_u64_spec(s: Seq<u8>) -> u64
    recommends
        s.len() == 8,
{
    ((s[0] as u64) << 56) | ((s[1] as u64) << 48) | ((s[2] as u64) << 40) | ((s[3] as u64) << 32)
        | ((s[4] as u64) << 24) | ((s[5] as u64) << 16) | ((s[6] as u64) << 8) | (s[7] as u64)
}

/// The unsigned 64-bit value held by eight little-endian bytes.
pub open spec fn le_u64_spec(s: Seq<u8>) -> u64
    recommends
        s.len() == 8,
{
    ((s[7] as u64) << 56) | ((s[6] as u64) << 48) | ((s[5] as u64) << 40) | ((s[4] as u64) << 32)
        | ((s[3] as u64) << 24) | ((s[2] as u64) << 16) | ((s[1] as u64) << 8) | (s[0] as u64)
}

/// Read one byte and advance the cursor; the cursor does not move on failure.
pub fn read_u8(data: &[u8], pos: &mut usize) -> (r: Result<u8, FstError>)
    ensures
        match r {
            Ok(b) => *old(pos) < data@.len() && b == data@[*old(pos) as int] && *final(pos) == *old(
                pos,
            ) + 1,
            Err(e) => e == FstError::Io && *final(pos) == *old(pos) && *old(pos) >= data@.len(),
        },
{
    if *pos < data.len() {
        let b = data[*pos];
        *pos = *pos + 1;
        Ok(b)
    } else {
        Err(FstError::Io)
    }
}

/// Read eight big-endian bytes as a `u64` and advance the cursor.
pub fn read_be_u64(data: &[u8], pos: &mut usize) -> (r: Result<u64, FstError>)
    ensures
        match r {
            Ok(v) => *old(pos) + 8 <= data@.len() && v == be_u64_spec(
                data@.subrange(*old(pos) as int, *old(pos) + 8),
            ) && *final(pos) == *old(pos) + 8,
            Err(e) => e == FstError::Io && *final(pos) == *old(pos) && *old(pos) + 8 > data@.len(),
        },
{
    if data.len() >= 8 && *pos <= data.len() - 8 {
        let p = *pos;
        let v = ((data[p] as u64) << 56) | ((data[p + 1] as u64) << 48) | ((data[p + 2] as u64)
            << 40) | ((data[p + 3] as u64) << 32) | ((data[p + 4] as u64) << 24) | ((data[p
            + 5] as u64) << 16) | ((data[p + 6] as u64) << 8) | (data[p + 7] as u64);
        *pos = p + 8;
        proof {
            let s = data@.subrange(p as int, p + 8);
            assert(s[0] == data@[p as int]);
            assert(s[1] == data@[p + 1]);
            assert(s[2] == data@[p + 2]);
            assert(s[3] == data@[p + 3]);
            assert(s[4] == data@[p + 4]);
            assert(s[5] == data@[p + 5]);
            assert(s[6] == data@[p + 6]);
            assert(s[7] == data@[p + 7]);
        }
        Ok(v)
    } else {
        Err(FstError::Io)
    }
}

/// Read eight little-endian bytes as a `u64` and advance the cursor.
pub fn read_le_u64(data: &[u8], pos: &mut usize) -> (r: Result<u64, FstError>)
    ensures
        match r {
            Ok(v) => *old(pos) + 8 <= data@.len() && v == le_u64_spec(
                data@.subrange(*old(pos) as int, *old(pos) + 8),
            ) && *final(pos) == *old(pos) + 8,
            Err(e) => e == FstError::Io && *final(pos) == *old(pos) && *old(pos) + 8 > data@.len(),
        },
{
    if data.len() >= 8 && *pos <= data.len() - 8 {
        let p = *pos;
        let v = ((data[p + 7] as u64) << 56) | ((data[p + 6] as u64) << 48) | ((data[p + 5] as u64)
            << 40) | ((data[p + 4] as u64) << 32) | ((data[p + 3] as u64) << 24) | ((data[p
            + 2] as u64) << 16) | ((data[p + 1] as u64) << 8) | (data[p] as u64);
        *pos = p + 8;
        proof {
            let s = data@.subrange(p as int, p + 8);
            assert(s[0] == data@[p as int]);
            assert(s[1] == data@[p + 1]);
            assert(s[2] == data@[p + 2]);
            assert(s[3] == data@[p + 3]);
            assert(s[4] == data@[p + 4]);
            assert(s[5] == data@[p + 5]);
            assert(s[6] == data@[p + 6]);
            assert(s[7] == data@[p + 7]);
        }
        Ok(v)
    } else {
        Err(FstError::Io)
    }
}

/// Copy `n` bytes starting at the cursor into a fresh vector and advance.
pub fn read_bytes(data: &[u8], pos: &mut usize, n: usize) -> (r: Result<Vec<u8>, FstError>)
    ensures
        match r {
            Ok(v) => *old(pos) + n <= data@.len() && v@ == data@.subrange(
                *old(pos) as int,
                *old(pos) + n,
            ) && *final(pos) == *old(pos) + n,
            Err(e) => e == FstError::Io && *final(pos) == *old(pos) && *old(pos) + n > data@.len(),
        },
{
    if n <= data.len() && *pos <= data.len() - n {
        let p = *pos;
        let mut v: Vec<u8> = Vec::new();
        let mut i: usize = 0;
        while i < n
            invariant
                i <= n,
                p + n <= data@.len(),
                p + n <= usize::MAX,
                v@ == data@.subrange(p as int, p + i),
            decreases n - i,
        {
            v.push(data[p + i]);
            proof {
                assert(v@ =~= data@.subrange(p as int, p + i + 1));
            }
            i = i + 1;
        }
        *pos = p + n;
        Ok(v)
    } else {
        Err(FstError::Io)
    }
}

} // verus!

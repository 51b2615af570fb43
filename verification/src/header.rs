//! The fixed-size FST header block: timing, counts, writer and date strings.

use crate::bytes::{be_u64_spec, le_u64_spec, read_be_u64, read_bytes, read_le_u64, read_u8};
use crate::error::FstError;
use crate::text::{lossy_utf8, utf8_lossy};
use vstd::prelude::*;

verus! {

/// The body of a header block is exactly this many bytes.
pub const HEADER_BODY_LENGTH: u64 = 321;

/// The real-endianness sentinel as written by a little-endian writer.
pub const REAL_ENDIANNESS_LITTLE: u64 = 0x4005BF0A8B145769;

/// The real-endianness sentinel as written by a big-endian writer.
pub const REAL_ENDIANNESS_BIG: u64 = 0x6957148B0ABF0540;

/// Decoded header block.  All fields are stored as read from the file; the
/// writer, date and reserved fields keep their NUL padding.
#[derive(Clone, Debug)]
pub struct Header {
    pub start_time: u64,
    pub end_time: u64,
    /// Bit pattern of the writer's encoding of real 0.5, used only to detect
    /// FST files and their byte order.
    pub real_endianness: u64,
    pub writer_memory_use: u64,
    pub num_scopes: u64,
    pub num_hiearchy_vars: u64,
    pub num_vars: u64,
    pub num_vc_blocks: u64,
    pub timescale: i8,
    /// 128 bytes, NUL-padded.
    pub writer: Vec<u8>,
    /// 26 bytes, NUL-padded.
    pub date: Vec<u8>,
    /// 93 reserved bytes.
    pub reserved: Vec<u8>,
    pub filetype: u8,
    pub timezero: i64,
}

/// The prefix of a byte string before its first NUL byte (the whole string
/// when there is none).
pub open spec fn nul_trim(s: Seq<u8>) -> Seq<u8>
    decreases s.len(),
{
    if s.len() == 0 {
        Seq::empty()
    } else if s[0] == 0 {
        Seq::empty()
    } else {
        seq![s[0]] + nul_trim(s.drop_first())
    }
}

proof fn lemma_nul_trim(s: Seq<u8>, n: int)
    requires
        0 <= n <= s.len(),
        forall|j: int| 0 <= j < n ==> s[j] != 0,
        n == s.len() || s[n] == 0,
    ensures
        nul_trim(s) == s.take(n),
    decreases n,
{
    if s.len() == 0 {
        assert(nul_trim(s) =~= s.take(0));
    } else if n == 0 {
        if s[0] == 0 {
            assert(nul_trim(s) =~= s.take(0));
        } else {
            assert(s.len() == 0 || s[0] == 0);
            assert(nul_trim(s) =~= s.take(0));
        }
    } else {
        lemma_nul_trim(s.drop_first(), n - 1);
        assert(s.take(n) =~= seq![s[0]] + s.drop_first().take(n - 1));
    }
}

/// The text a NUL-padded byte field holds: everything before the first NUL,
/// decoded lossily as UTF-8.
pub fn array_to_string(x: &[u8]) -> (r: String)
    ensures
        r@ == lossy_utf8(nul_trim(x@)),
{
    let mut n: usize = 0;
    while n < x.len() && x[n] != 0
        invariant
            0 <= n <= x@.len(),
            forall|j: int| 0 <= j < n ==> x@[j] != 0,
        decreases x@.len() - n,
    {
        n = n + 1;
    }
    proof {
        lemma_nul_trim(x@, n as int);
        assert(x@.subrange(0, n as int) =~= x@.take(n as int));
    }
    let prefix = vstd::slice::slice_subrange(x, 0, n);
    utf8_lossy(prefix)
}

impl Header {
    /// The writer string: the tool that produced the file.
    pub fn writer_string(&self) -> (r: String)
        ensures
            r@ == lossy_utf8(nul_trim(self.writer@)),
    {
        array_to_string(self.writer.as_slice())
    }

    /// The date string recorded at write time.
    pub fn date_string(&self) -> (r: String)
        ensures
            r@ == lossy_utf8(nul_trim(self.date@)),
    {
        array_to_string(self.date.as_slice())
    }
}

/// `h` holds exactly the fields of the header body at index `p` of `data`.
pub open spec fn header_fields(data: Seq<u8>, p: int, h: Header) -> bool {
    &&& h.start_time == be_u64_spec(data.subrange(p, p + 8))
    &&& h.end_time == be_u64_spec(data.subrange(p + 8, p + 16))
    &&& h.real_endianness == le_u64_spec(data.subrange(p + 16, p + 24))
    &&& h.writer_memory_use == be_u64_spec(data.subrange(p + 24, p + 32))
    &&& h.num_scopes == be_u64_spec(data.subrange(p + 32, p + 40))
    &&& h.num_hiearchy_vars == be_u64_spec(data.subrange(p + 40, p + 48))
    &&& h.num_vars == be_u64_spec(data.subrange(p + 48, p + 56))
    &&& h.num_vc_blocks == be_u64_spec(data.subrange(p + 56, p + 64))
    &&& h.timescale == data[p + 64] as i8
    &&& h.writer@ == data.subrange(p + 65, p + 193)
    &&& h.date@ == data.subrange(p + 193, p + 219)
    &&& h.reserved@ == data.subrange(p + 219, p + 312)
    &&& h.filetype == data[p + 312]
    &&& h.timezero == be_u64_spec(data.subrange(p + 313, p + 321)) as i64
}

/// Decode the 321-byte header body at the cursor.  Fails with `Io`, leaving
/// the cursor in place, exactly when fewer than 321 bytes remain.
pub fn read_header(data: &[u8], pos: &mut usize) -> (r: Result<Header, FstError>)
    ensures
        match r {
            Ok(h) => {
                let p = *old(pos) as int;
                &&& p + 321 <= data@.len()
                &&& *final(pos) == p + 321
                &&& header_fields(data@, p, h)
            },
            Err(e) => {
                &&& e == FstError::Io
                &&& *final(pos) == *old(pos)
                &&& *old(pos) + 321 > data@.len()
            },
        },
{
    if data.len() < 321 || *pos > data.len() - 321 {
        return Err(FstError::Io);
    }
    let start_time = match read_be_u64(data, pos) {
        Ok(v) => v,
        Err(e) => { return Err(e) },
    };
    let end_time = match read_be_u64(data, pos) {
        Ok(v) => v,
        Err(e) => { return Err(e) },
    };
    let real_endianness = match read_le_u64(data, pos) {
        Ok(v) => v,
        Err(e) => { return Err(e) },
    };
    let writer_memory_use = match read_be_u64(data, pos) {
        Ok(v) => v,
        Err(e) => { return Err(e) },
    };
    let num_scopes = match read_be_u64(data, pos) {
        Ok(v) => v,
        Err(e) => { return Err(e) },
    };
    let num_hiearchy_vars = match read_be_u64(data, pos) {
        Ok(v) => v,
        Err(e) => { return Err(e) },
    };
    let num_vars = match read_be_u64(data, pos) {
        Ok(v) => v,
        Err(e) => { return Err(e) },
    };
    let num_vc_blocks = match read_be_u64(data, pos) {
        Ok(v) => v,
        Err(e) => { return Err(e) },
    };
    let timescale_byte = match read_u8(data, pos) {
        Ok(v) => v,
        Err(e) => { return Err(e) },
    };
    let writer = match read_bytes(data, pos, 128) {
        Ok(v) => v,
        Err(e) => { return Err(e) },
    };
    let date = match read_bytes(data, pos, 26) {
        Ok(v) => v,
        Err(e) => { return Err(e) },
    };
    let reserved = match read_bytes(data, pos, 93) {
        Ok(v) => v,
        Err(e) => { return Err(e) },
    };
    let filetype = match read_u8(data, pos) {
        Ok(v) => v,
        Err(e) => { return Err(e) },
    };
    let timezero_bits = match read_be_u64(data, pos) {
        Ok(v) => v,
        Err(e) => { return Err(e) },
    };
    Ok(
        Header {
            start_time,
            end_time,
            real_endianness,
            writer_memory_use,
            num_scopes,
            num_hiearchy_vars,
            num_vars,
            num_vc_blocks,
            timescale: timescale_byte as i8,
            writer,
            date,
            reserved,
            filetype,
            timezero: timezero_bits as i64,
        },
    )
}

} // verus!

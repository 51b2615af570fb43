//! Decompression back-ends used inside FST blocks.
//!
//! FST mixes three compression schemes: Zlib (with and without the stream
//! header), LZ4 block format, and FastLZ.  Each back-end is a deterministic
//! function of the compressed bytes and the output capacity, so each result
//! is given a name that contracts elsewhere in the crate can speak of.

use vstd::prelude::*;

verus! {

/// What flate2 inflates a zlib stream (with header) to, given an output
/// buffer of `capacity` bytes; `None` when the stream is invalid.
pub uninterp spec fn zlib_inflate(input: Seq<u8>, capacity: nat) -> Option<Seq<u8>>;

/// What flate2 inflates a raw deflate stream (no header) to, given an output
/// buffer of `capacity` bytes; `None` when the stream is invalid.
pub uninterp spec fn deflate_inflate(input: Seq<u8>, capacity: nat) -> Option<Seq<u8>>;

/// What lz4_flex decodes an LZ4 block to, given the expected uncompressed
/// size; `None` when the block is invalid or needs more room.
pub uninterp spec fn lz4_inflate(input: Seq<u8>, capacity: nat) -> Option<Seq<u8>>;

/// What FastLZ decodes a block to within an output buffer of `capacity`
/// bytes: the bytes actually written (empty when the data is corrupt).
pub uninterp spec fn fastlz_inflate(input: Seq<u8>, capacity: nat) -> Seq<u8>;

/// Relies on flate2's `Decompress::new(true)` and `decompress`: inflates a
/// zlib stream (with header) into a buffer of exactly `capacity` bytes,
/// trimmed to the bytes written.  Decompressing into a buffer of fixed
/// length (rather than a vector's spare capacity, which std only promises
/// to be "at least" the asked size) keeps the result a function of the
/// input bytes and the capacity alone.
#[verifier::external_body]
pub(crate) fn zlib_decompress(input: &[u8], capacity: usize) -> (r: Option<Vec<u8>>)
    ensures
        r is Some <==> zlib_inflate(input@, capacity as nat) is Some,
        r is Some ==> r.unwrap()@ == zlib_inflate(input@, capacity as nat).unwrap(),
        r is Some ==> r.unwrap()@.len() <= capacity,
{
    let mut out: Vec<u8> = vec![0u8; capacity];
    let mut d = flate2::Decompress::new(true);
    match d.decompress(input, &mut out, flate2::FlushDecompress::Finish) {
        Ok(_) => {
            out.truncate(d.total_out() as usize);
            Some(out)
        },
        Err(_) => None,
    }
}

/// Relies on flate2's `Decompress::new(false)` and `decompress`: inflates a
/// raw deflate stream (no zlib header) into a buffer of exactly `capacity`
/// bytes, trimmed to the bytes written.  The result depends on the input
/// bytes and the capacity alone.
#[verifier::external_body]
pub(crate) fn deflate_decompress(input: &[u8], capacity: usize) -> (r: Option<Vec<u8>>)
    ensures
        r is Some <==> deflate_inflate(input@, capacity as nat) is Some,
        r is Some ==> r.unwrap()@ == deflate_inflate(input@, capacity as nat).unwrap(),
        r is Some ==> r.unwrap()@.len() <= capacity,
{
    let mut out: Vec<u8> = vec![0u8; capacity];
    let mut d = flate2::Decompress::new(false);
    match d.decompress(input, &mut out, flate2::FlushDecompress::Finish) {
        Ok(_) => {
            out.truncate(d.total_out() as usize);
            Some(out)
        },
        Err(_) => None,
    }
}

/// Relies on lz4_flex's `block::decompress`: decodes an LZ4 block into a
/// fresh vector of at most `capacity` bytes (the crate's safe decoder errors
/// rather than overrunning).  The result depends on the input bytes and the
/// capacity alone.
#[verifier::external_body]
pub(crate) fn lz4_decompress(input: &[u8], capacity: usize) -> (r: Option<Vec<u8>>)
    ensures
        r is Some <==> lz4_inflate(input@, capacity as nat) is Some,
        r is Some ==> r.unwrap()@ == lz4_inflate(input@, capacity as nat).unwrap(),
        r is Some ==> r.unwrap()@.len() <= capacity,
{
    match lz4_flex::block::decompress(input, capacity) {
        Ok(v) => Some(v),
        Err(_) => None,
    }
}

/// Relies on fastlz's `decompress`: decodes a FastLZ block into a buffer of
/// `capacity` bytes, returning the prefix actually written (empty on corrupt
/// data; the C decoder is built with its safety checks on and never overruns
/// `capacity`).  On malformed data the C match decoder reads a bounded few
/// bytes past the end of the block (its length-extension loop stops at the
/// first byte that is not 255), so the wrapper hands it a copy of the input
/// followed by sixteen zero bytes: every such read lands in bytes the
/// wrapper controls, and the result is a function of the input bytes and
/// the capacity alone.  The C code reads the first input byte
/// unconditionally, hence the non-empty requirement.
#[verifier::external_body]
pub(crate) fn fastlz_decompress(input: &[u8], capacity: usize) -> (r: Vec<u8>)
    requires
        input@.len() > 0,
    ensures
        r@ == fastlz_inflate(input@, capacity as nat),
        r@.len() <= capacity,
{
    let mut padded: Vec<u8> = Vec::with_capacity(input.len() + 16);
    padded.extend_from_slice(input);
    padded.resize(input.len() + 16, 0);
    let mut buf: Vec<u8> = vec![0u8; capacity];
    match fastlz::decompress(&padded[..input.len()], &mut buf) {
        Ok(out) => out.to_vec(),
        Err(()) => Vec::new(),
    }
}

} // verus!

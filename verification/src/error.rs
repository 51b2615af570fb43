//! Error kinds raised while reading an FST image.

use vstd::prelude::*;

verus! {

/// Every failure of the reader is one of these kinds; all are fatal to the
/// operation that raised them.
#[derive(Clone, Copy, Debug, PartialEq, Eq, Structural)]
pub enum FstError {
    /// The real-endianness sentinel in the header does not match.
    NotAnFstFile,
    /// A legacy or wrapper block, 9-valued logic beyond {0,1,X,Z}, or an
    /// over-long hierarchy name: valid FST, but outside what this reader does.
    UnsupportedFormat,
    /// Structurally invalid data: unexpected block type, bad lengths,
    /// sub-region underflow, forward alias, varint overflow.
    Malformed,
    /// The input ended before a read could complete.
    Io,
    /// A compressed region failed to decompress, or decompressed to the
    /// wrong length.
    Decompress,
}

} // verus!

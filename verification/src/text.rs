//! Text carried inside FST files: writer and date strings, scope and
//! variable names.  All are byte strings interpreted as UTF-8, lossily.

use vstd::prelude::*;

verus! {

/// What `String::from_utf8_lossy` makes of a byte string.  The result
/// depends on the bytes alone; ASCII bytes come through unchanged.
pub uninterp spec fn lossy_utf8(bytes: Seq<u8>) -> Seq<char>;

/// Relies on std's `String::from_utf8_lossy`: decodes bytes as UTF-8,
/// replacing invalid sequences.  Its documentation promises that valid UTF-8
/// (in particular pure ASCII) is taken over as it is.
#[verifier::external_body]
pub(crate) fn utf8_lossy(bytes: &[u8]) -> (r: String)
    ensures
        r@ == lossy_utf8(bytes@),
        bytes@.len() == 0 ==> r@.len() == 0,
        (forall|i: int| 0 <= i < bytes@.len() ==> bytes@[i] < 0x80) ==> (r@.len() == bytes@.len()
            && forall|i: int| 0 <= i < bytes@.len() ==> r@[i] == bytes@[i] as char),
{
    String::from_utf8_lossy(bytes).into_owned()
}

} // verus!

//! Token-level conversion: eligibility under the exclusion set, and the
//! letter-by-letter substitution of a whole token.

use vstd::prelude::*;
use crate::mapping::{excluded, has_image, qd_image, qd_map};

verus! {

/// A token is eligible for conversion when none of its bytes is excluded.
pub open spec fn eligible(w: Seq<u8>) -> bool {
    forall|i: int| 0 <= i < w.len() ==> !excluded(#[trigger] w[i])
}

/// Every byte of the token has an entry in the substitution table.
pub open spec fn fully_mapped(w: Seq<u8>) -> bool {
    forall|i: int| 0 <= i < w.len() ==> has_image(#[trigger] w[i])
}

/// The converted form of a token: each byte replaced by its image, in place.
pub open spec fn converted(w: Seq<u8>) -> Seq<u8> {
    w.map_values(|b: u8| qd_image(b))
}

/// Conversion failure: an eligible token held a byte with no table entry,
/// carrying the offending byte for the diagnostic.
#[derive(Debug, Clone, Copy, PartialEq, Eq, Structural)]
pub enum TransformError {
    MappingGap(u8),
}

/// A token containing an excluded byte is never eligible, and has no
/// converted output: the transformer skips it rather than mapping it.
pub proof fn lemma_excluded_blocks_conversion(w: Seq<u8>, i: int)
    requires
        0 <= i < w.len(),
        excluded(w[i]),
    ensures
        !eligible(w),
        !fully_mapped(w),
{
    crate::mapping::lemma_mapping_coverage();
}

/// Conversion never changes a token's length.
pub proof fn lemma_conversion_preserves_length(w: Seq<u8>)
    ensures
        converted(w).len() == w.len(),
{
}

/// Whether the token is eligible: true exactly when no byte of it belongs
/// to the exclusion set.
pub fn is_eligible(w: &Vec<u8>) -> (r: bool)
    ensures
        r == eligible(w@),
{
    let mut i: usize = 0;
    while i < w.len()
        invariant
            i <= w@.len(),
            forall|j: int| 0 <= j < i ==> !excluded(#[trigger] w@[j]),
        decreases w@.len() - i,
    {
        let b = w[i];
        if b == 'e' as u8 || b == 'E' as u8 || b == 'q' as u8 || b == 'Q' as u8 || b == 'w' as u8
            || b == 'W' as u8 || b == 'z' as u8 || b == 'Z' as u8 {
            return false;
        }
        i = i + 1;
    }
    true
}

/// Convert a token under the fixed table. Succeeds, with the image of every
/// byte in place, exactly when the whole token is covered by the table;
/// otherwise reports the first byte with no entry.
pub fn transform(w: &Vec<u8>) -> (r: Result<Vec<u8>, TransformError>)
    ensures
        r is Ok <==> fully_mapped(w@),
        r matches Ok(t) ==> t@ == converted(w@) && t@.len() == w@.len(),
        r matches Err(e) ==> (exists|i: int|
            0 <= i < w@.len() && !has_image(w@[i]) && (forall|j: int|
                0 <= j < i ==> has_image(#[trigger] w@[j])) && e == TransformError::MappingGap(
                w@[i],
            )),
{
    let mut out: Vec<u8> = Vec::new();
    let mut i: usize = 0;
    while i < w.len()
        invariant
            i <= w@.len(),
            out@.len() == i,
            forall|j: int| 0 <= j < i ==> has_image(#[trigger] w@[j]),
            forall|j: int| 0 <= j < i ==> out@[j] == qd_image(#[trigger] w@[j]),
        decreases w@.len() - i,
    {
        let b = w[i];
        let m = qd_map(b);
        if m == 0 {
            assert(!has_image(w@[i as int]));
            return Err(TransformError::MappingGap(b));
        }
        out.push(m);
        i = i + 1;
    }
    assert(out@ =~= converted(w@));
    Ok(out)
}

} // verus!

//! The fixed QWERTY-to-Dvorak substitution table, the exclusion set, and the
//! conversion of a single byte.
//!
//! The table covers the 22 letters (in both cases) whose QWERTY key position
//! carries a letter in the Dvorak layout. The four letters `e`, `q`, `w` and
//! `z` sit on Dvorak punctuation positions, so they have no image: a token
//! containing any of them is excluded from conversion altogether.

use vstd::prelude::*;

verus! {

/// A byte whose presence disqualifies a token from conversion: the letters
/// `e`, `q`, `w`, `z` in either case have no letter image under the layout.
pub open spec fn excluded(b: u8) -> bool {
    b == 'e' as u8 || b == 'E' as u8 || b == 'q' as u8 || b == 'Q' as u8 || b == 'w' as u8 || b == 'W' as u8 || b == 'z' as u8
        || b == 'Z' as u8
}

/// An ASCII letter, the alphabet the substitution table is defined over.
pub open spec fn is_letter(b: u8) -> bool {
    ('A' as u8 <= b && b <= 'Z' as u8) || ('a' as u8 <= b && b <= 'z' as u8)
}

/// The substitution table itself: the Dvorak letter on the QWERTY key `b`,
/// or 0 for a byte with no image (non-letters and the excluded letters).
pub open spec fn qd_image(b: u8) -> u8 {
    if b == 'A' as u8 {
        'A' as u8
    } else if b == 'B' as u8 {
        'X' as u8
    } else if b == 'C' as u8 {
        'J' as u8
    } else if b == 'D' as u8 {
        'E' as u8
    } else if b == 'F' as u8 {
        'U' as u8
    } else if b == 'G' as u8 {
        'I' as u8
    } else if b == 'H' as u8 {
        'D' as u8
    } else if b == 'I' as u8 {
        'C' as u8
    } else if b == 'J' as u8 {
        'H' as u8
    } else if b == 'K' as u8 {
        'T' as u8
    } else if b == 'L' as u8 {
        'N' as u8
    } else if b == 'M' as u8 {
        'M' as u8
    } else if b == 'N' as u8 {
        'B' as u8
    } else if b == 'O' as u8 {
        'R' as u8
    } else if b == 'P' as u8 {
        'L' as u8
    } else if b == 'R' as u8 {
        'P' as u8
    } else if b == 'S' as u8 {
        'O' as u8
    } else if b == 'T' as u8 {
        'Y' as u8
    } else if b == 'U' as u8 {
        'G' as u8
    } else if b == 'V' as u8 {
        'K' as u8
    } else if b == 'X' as u8 {
        'Q' as u8
    } else if b == 'Y' as u8 {
        'F' as u8
    } else if b == 'a' as u8 {
        'a' as u8
    } else if b == 'b' as u8 {
        'x' as u8
    } else if b == 'c' as u8 {
        'j' as u8
    } else if b == 'd' as u8 {
        'e' as u8
    } else if b == 'f' as u8 {
        'u' as u8
    } else if b == 'g' as u8 {
        'i' as u8
    } else if b == 'h' as u8 {
        'd' as u8
    } else if b == 'i' as u8 {
        'c' as u8
    } else if b == 'j' as u8 {
        'h' as u8
    } else if b == 'k' as u8 {
        't' as u8
    } else if b == 'l' as u8 {
        'n' as u8
    } else if b == 'm' as u8 {
        'm' as u8
    } else if b == 'n' as u8 {
        'b' as u8
    } else if b == 'o' as u8 {
        'r' as u8
    } else if b == 'p' as u8 {
        'l' as u8
    } else if b == 'r' as u8 {
        'p' as u8
    } else if b == 's' as u8 {
        'o' as u8
    } else if b == 't' as u8 {
        'y' as u8
    } else if b == 'u' as u8 {
        'g' as u8
    } else if b == 'v' as u8 {
        'k' as u8
    } else if b == 'x' as u8 {
        'q' as u8
    } else if b == 'y' as u8 {
        'f' as u8
    } else {
        0
    }
}

/// Whether the table has an entry for `b`.
pub open spec fn has_image(b: u8) -> bool {
    qd_image(b) != 0
}

/// The inverse direction of the table, used to show it is injective.
pub open spec fn qd_preimage(c: u8) -> u8 {
    if c == 'A' as u8 {
        'A' as u8
    } else if c == 'X' as u8 {
        'B' as u8
    } else if c == 'J' as u8 {
        'C' as u8
    } else if c == 'E' as u8 {
        'D' as u8
    } else if c == 'U' as u8 {
        'F' as u8
    } else if c == 'I' as u8 {
        'G' as u8
    } else if c == 'D' as u8 {
        'H' as u8
    } else if c == 'C' as u8 {
        'I' as u8
    } else if c == 'H' as u8 {
        'J' as u8
    } else if c == 'T' as u8 {
        'K' as u8
    } else if c == 'N' as u8 {
        'L' as u8
    } else if c == 'M' as u8 {
        'M' as u8
    } else if c == 'B' as u8 {
        'N' as u8
    } else if c == 'R' as u8 {
        'O' as u8
    } else if c == 'L' as u8 {
        'P' as u8
    } else if c == 'P' as u8 {
        'R' as u8
    } else if c == 'O' as u8 {
        'S' as u8
    } else if c == 'Y' as u8 {
        'T' as u8
    } else if c == 'G' as u8 {
        'U' as u8
    } else if c == 'K' as u8 {
        'V' as u8
    } else if c == 'Q' as u8 {
        'X' as u8
    } else if c == 'F' as u8 {
        'Y' as u8
    } else if c == 'a' as u8 {
        'a' as u8
    } else if c == 'x' as u8 {
        'b' as u8
    } else if c == 'j' as u8 {
        'c' as u8
    } else if c == 'e' as u8 {
        'd' as u8
    } else if c == 'u' as u8 {
        'f' as u8
    } else if c == 'i' as u8 {
        'g' as u8
    } else if c == 'd' as u8 {
        'h' as u8
    } else if c == 'c' as u8 {
        'i' as u8
    } else if c == 'h' as u8 {
        'j' as u8
    } else if c == 't' as u8 {
        'k' as u8
    } else if c == 'n' as u8 {
        'l' as u8
    } else if c == 'm' as u8 {
        'm' as u8
    } else if c == 'b' as u8 {
        'n' as u8
    } else if c == 'r' as u8 {
        'o' as u8
    } else if c == 'l' as u8 {
        'p' as u8
    } else if c == 'p' as u8 {
        'r' as u8
    } else if c == 'o' as u8 {
        's' as u8
    } else if c == 'y' as u8 {
        't' as u8
    } else if c == 'g' as u8 {
        'u' as u8
    } else if c == 'k' as u8 {
        'v' as u8
    } else if c == 'q' as u8 {
        'x' as u8
    } else if c == 'f' as u8 {
        'y' as u8
    } else {
        0
    }
}

/// Every non-excluded letter has an entry in the table, and only letters do:
/// the exclusion set is exactly the set of letters with no image.
pub proof fn lemma_mapping_coverage()
    ensures
        forall|b: u8| is_letter(b) && !excluded(b) ==> has_image(b),
        forall|b: u8| has_image(b) ==> is_letter(b) && !excluded(b),
{
}

/// The table is injective on its domain: no two distinct source letters
/// share an image, so the substitution is a bijection onto its range.
pub proof fn lemma_mapping_injective()
    ensures
        forall|b1: u8, b2: u8|
            has_image(b1) && has_image(b2) && qd_image(b1) == qd_image(b2) ==> b1 == b2,
{
    assert forall|b: u8| has_image(b) implies qd_preimage(qd_image(b)) == b by {};
}

/// The substitution table as an executable function: the Dvorak letter for
/// the QWERTY key `b`, or 0 where the table has no entry.
pub fn qd_map(b: u8) -> (r: u8)
    ensures
        r == qd_image(b),
{
    if b == 'A' as u8 {
        'A' as u8
    } else if b == 'B' as u8 {
        'X' as u8
    } else if b == 'C' as u8 {
        'J' as u8
    } else if b == 'D' as u8 {
        'E' as u8
    } else if b == 'F' as u8 {
        'U' as u8
    } else if b == 'G' as u8 {
        'I' as u8
    } else if b == 'H' as u8 {
        'D' as u8
    } else if b == 'I' as u8 {
        'C' as u8
    } else if b == 'J' as u8 {
        'H' as u8
    } else if b == 'K' as u8 {
        'T' as u8
    } else if b == 'L' as u8 {
        'N' as u8
    } else if b == 'M' as u8 {
        'M' as u8
    } else if b == 'N' as u8 {
        'B' as u8
    } else if b == 'O' as u8 {
        'R' as u8
    } else if b == 'P' as u8 {
        'L' as u8
    } else if b == 'R' as u8 {
        'P' as u8
    } else if b == 'S' as u8 {
        'O' as u8
    } else if b == 'T' as u8 {
        'Y' as u8
    } else if b == 'U' as u8 {
        'G' as u8
    } else if b == 'V' as u8 {
        'K' as u8
    } else if b == 'X' as u8 {
        'Q' as u8
    } else if b == 'Y' as u8 {
        'F' as u8
    } else if b == 'a' as u8 {
        'a' as u8
    } else if b == 'b' as u8 {
        'x' as u8
    } else if b == 'c' as u8 {
        'j' as u8
    } else if b == 'd' as u8 {
        'e' as u8
    } else if b == 'f' as u8 {
        'u' as u8
    } else if b == 'g' as u8 {
        'i' as u8
    } else if b == 'h' as u8 {
        'd' as u8
    } else if b == 'i' as u8 {
        'c' as u8
    } else if b == 'j' as u8 {
        'h' as u8
    } else if b == 'k' as u8 {
        't' as u8
    } else if b == 'l' as u8 {
        'n' as u8
    } else if b == 'm' as u8 {
        'm' as u8
    } else if b == 'n' as u8 {
        'b' as u8
    } else if b == 'o' as u8 {
        'r' as u8
    } else if b == 'p' as u8 {
        'l' as u8
    } else if b == 'r' as u8 {
        'p' as u8
    } else if b == 's' as u8 {
        'o' as u8
    } else if b == 't' as u8 {
        'y' as u8
    } else if b == 'u' as u8 {
        'g' as u8
    } else if b == 'v' as u8 {
        'k' as u8
    } else if b == 'x' as u8 {
        'q' as u8
    } else if b == 'y' as u8 {
        'f' as u8
    } else {
        0
    }
}

} // verus!

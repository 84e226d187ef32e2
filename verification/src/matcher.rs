//! Wildcard-aware byte comparison: the leaf predicate of the whole patcher.

use vstd::prelude::*;

verus! {

/// The reserved "don't care" byte in patterns. A pattern position holding
/// this value matches any image byte; it can never be a literal match target.
pub const ANY: u8 = 0x2A;

/// One pattern byte matches one image byte when the pattern byte is the
/// wildcard or the two are equal.
pub open spec fn byte_matches(img_byte: u8, pat_byte: u8) -> bool {
    pat_byte == ANY || img_byte == pat_byte
}

/// A window of image bytes matches a pattern when the lengths agree and
/// every position matches byte for byte, wildcard-aware.
pub open spec fn wild_match(window: Seq<u8>, pat: Seq<u8>) -> bool {
    &&& window.len() == pat.len()
    &&& forall|i: int| 0 <= i < pat.len() ==> #[trigger] byte_matches(window[i], pat[i])
}

/// Wildcard-aware comparison of an image window against a pattern: true
/// exactly when every non-wildcard pattern byte equals the image byte at
/// the same position and the lengths agree.
pub fn instruction_eq(location: &[u8], target: &[u8]) -> (r: bool)
    ensures
        r == wild_match(location@, target@),
{
    if location.len() != target.len() {
        return false;
    }
    let mut i: usize = 0;
    while i < target.len()
        invariant
            location@.len() == target@.len(),
            i <= target@.len(),
            forall|j: int| 0 <= j < i ==> #[trigger] byte_matches(location@[j], target@[j]),
        decreases target@.len() - i,
    {
        let t = target[i];
        let l = location[i];
        if t != ANY && t != l {
            assert(!byte_matches(location@[i as int], target@[i as int]));
            return false;
        }
        i = i + 1;
    }
    true
}

} // verus!

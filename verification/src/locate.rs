//! The location resolver: a uniqueness-checked anchor scan over the whole
//! image, followed by a first-match scan over a bounded window after the
//! anchor that tells "not yet patched" apart from "already patched".

use vstd::prelude::*;
use crate::errors::PatchError;
use crate::matcher::instruction_eq;
use crate::matcher::wild_match;

verus! {

/// Length of the bounded search window past the anchor, in bytes. An
/// empirical constant tied to the known signatures: the mutable target is
/// assumed to lie within this many bytes of its anchor.
pub const WINDOW: usize = 100;

/// The anchor pattern matches the image at offset `k` (wildcard-aware).
pub open spec fn anchor_at(img: Seq<u8>, pat: Seq<u8>, k: int) -> bool {
    &&& 0 <= k
    &&& k + pat.len() <= img.len()
    &&& wild_match(img.subrange(k, k + pat.len() as int), pat)
}

/// `k` is the one and only offset where the anchor pattern matches.
pub open spec fn anchor_unique_at(img: Seq<u8>, pat: Seq<u8>, k: int) -> bool {
    &&& anchor_at(img, pat, k)
    &&& forall|j: int| anchor_at(img, pat, j) ==> j == k
}

/// End (exclusive) of the search window that starts at anchor offset `tf`,
/// clipped to the image bounds.
pub open spec fn window_end(img: Seq<u8>, tf: int) -> int {
    if tf + WINDOW <= img.len() {
        tf + WINDOW
    } else {
        img.len() as int
    }
}

/// Offset `o` lies in the search window after anchor offset `tf`, and a
/// pattern of length `len` starting at `o` stays inside that window.
pub open spec fn in_window(img: Seq<u8>, tf: int, len: int, o: int) -> bool {
    tf <= o && o + len <= window_end(img, tf)
}

/// The `before` pattern matches the image at offset `o` (wildcard-aware).
pub open spec fn pre_at(img: Seq<u8>, pre: Seq<u8>, o: int) -> bool {
    &&& 0 <= o
    &&& o + pre.len() <= img.len()
    &&& wild_match(img.subrange(o, o + pre.len() as int), pre)
}

/// The image bytes at offset `o` literally equal the `after` bytes.
pub open spec fn post_at(img: Seq<u8>, post: Seq<u8>, o: int) -> bool {
    &&& 0 <= o
    &&& o + post.len() <= img.len()
    &&& img.subrange(o, o + post.len() as int) == post
}

/// The window scan resolves to `to`: the anchor is unique at `tf`, the
/// `before` pattern matches at `to` inside the window, the bytes there are
/// not already the `after` bytes, and no earlier window offset triggered
/// either check (first match wins, ascending offsets).
pub open spec fn resolves_at(
    img: Seq<u8>,
    target: Seq<u8>,
    pre: Seq<u8>,
    post: Seq<u8>,
    tf: int,
    to: int,
) -> bool {
    &&& anchor_unique_at(img, target, tf)
    &&& in_window(img, tf, pre.len() as int, to)
    &&& pre_at(img, pre, to)
    &&& !post_at(img, post, to)
    &&& forall|o: int| tf <= o < to ==> !pre_at(img, pre, o) && !post_at(img, post, o)
}

/// Some unique anchor offset resolves the sub-edit to offset `to`.
pub open spec fn locate_ok(img: Seq<u8>, target: Seq<u8>, pre: Seq<u8>, post: Seq<u8>, to: int) -> bool {
    exists|tf: int| resolves_at(img, target, pre, post, tf, to)
}

/// The window scan runs into the `after` bytes at offset `o` before any
/// offset matched the `before` pattern: the edit was already applied.
pub open spec fn already_at(
    img: Seq<u8>,
    pre: Seq<u8>,
    post: Seq<u8>,
    tf: int,
    o: int,
) -> bool {
    &&& in_window(img, tf, pre.len() as int, o)
    &&& post_at(img, post, o)
    &&& forall|o2: int| tf <= o2 < o ==> !pre_at(img, pre, o2) && !post_at(img, post, o2)
}

/// No offset of the window matches the `before` pattern or holds the
/// `after` bytes.
pub open spec fn window_exhausted(img: Seq<u8>, pre: Seq<u8>, post: Seq<u8>, tf: int) -> bool {
    forall|o: int| in_window(img, tf, pre.len() as int, o)
        ==> !pre_at(img, pre, o) && !post_at(img, post, o)
}

/// Everything `find_location` promises, as one predicate over its result:
/// which offset is returned, and exactly the condition under which each
/// error kind comes.
pub open spec fn locate_spec(
    img: Seq<u8>,
    target: Seq<u8>,
    pre: Seq<u8>,
    post: Seq<u8>,
    r: Result<usize, PatchError>,
) -> bool {
    match r {
        Ok(to) => locate_ok(img, target, pre, post, to as int),
        Err(PatchError::MultiplePossibleLocations) => exists|k1: int, k2: int|
            k1 != k2 && #[trigger] anchor_at(img, target, k1) && #[trigger] anchor_at(img, target, k2),
        Err(PatchError::AlreadyApplied) => exists|tf: int, o: int|
            #[trigger] anchor_unique_at(img, target, tf) && #[trigger] already_at(img, pre, post, tf, o),
        Err(PatchError::Unavailable) => (forall|k: int| !anchor_at(img, target, k)) || (exists|tf: int|
            #[trigger] anchor_unique_at(img, target, tf) && window_exhausted(img, pre, post, tf)),
        Err(PatchError::PatchFileDoesNotMatchTarget) => false,
    }
}

/// Literal byte-for-byte equality of two slices (not wildcard-aware).
fn bytes_eq(a: &[u8], b: &[u8]) -> (r: bool)
    ensures
        r == (a@ == b@),
{
    if a.len() != b.len() {
        assert(a@ != b@);
        return false;
    }
    let mut i: usize = 0;
    while i < a.len()
        invariant
            a@.len() == b@.len(),
            i <= a@.len(),
            forall|j: int| 0 <= j < i ==> a@[j] == b@[j],
        decreases a@.len() - i,
    {
        if a[i] != b[i] {
            assert(a@ != b@);
            return false;
        }
        i = i + 1;
    }
    assert(a@ =~= b@);
    true
}

/// Resolve one sub-edit against the image: find the unique offset of the
/// anchor `target`, then scan the bounded window after it, at each offset
/// first for the `post_patch` bytes (already applied) and then for the
/// `pre_patch` pattern (first match wins). The result and every error kind
/// are pinned down by `locate_spec`.
pub fn find_location(
    game: &[u8],
    target: &[u8],
    pre_patch: &[u8],
    post_patch: &[u8],
) -> (r: Result<usize, PatchError>)
    requires
        target@.len() > 0,
        pre_patch@.len() > 0,
        pre_patch@.len() == post_patch@.len(),
    ensures
        locate_spec(game@, target@, pre_patch@, post_patch@, r),
{
    let n = game.len();
    let tlen = target.len();
    if n < tlen {
        assert forall|k: int| !anchor_at(game@, target@, k) by {
            if 0 <= k && k + target@.len() <= game@.len() {
                assert(false);
            }
        }
        return Err(PatchError::Unavailable);
    }

    let mut found: Option<usize> = None;
    let mut k: usize = 0;
    while k <= n - tlen
        invariant
            n == game@.len(),
            tlen == target@.len(),
            0 < tlen <= n,
            k <= n - tlen + 1,
            match found {
                Some(tf) => {
                    &&& tf < k
                    &&& anchor_at(game@, target@, tf as int)
                    &&& forall|j: int| j < k && anchor_at(game@, target@, j) ==> j == tf
                },
                None => forall|j: int| j < k ==> !anchor_at(game@, target@, j),
            },
        decreases n - tlen + 1 - k,
    {
        let chunk = &game[k..k + tlen];
        if instruction_eq(chunk, target) {
            assert(anchor_at(game@, target@, k as int));
            match found {
                Some(tf) => {
                    assert(anchor_at(game@, target@, tf as int));
                    return Err(PatchError::MultiplePossibleLocations);
                },
                None => {
                    found = Some(k);
                },
            }
        } else {
            assert(!anchor_at(game@, target@, k as int));
        }
        k = k + 1;
    }

    let tf = match found {
        Some(tf) => tf,
        None => {
            assert forall|j: int| !anchor_at(game@, target@, j) by {
                if 0 <= j && j + target@.len() <= game@.len() {
                    assert(j < k);
                }
            }
            return Err(PatchError::Unavailable);
        },
    };
    assert(anchor_unique_at(game@, target@, tf as int)) by {
        assert forall|j: int| anchor_at(game@, target@, j) implies j == tf by {
            assert(j < k);
        }
    }

    let upper = if n - tf > WINDOW {
        tf + WINDOW
    } else {
        n
    };
    assert(upper == window_end(game@, tf as int));

    let plen = pre_patch.len();
    if upper < plen || tf > upper - plen {
        assert(window_exhausted(game@, pre_patch@, post_patch@, tf as int)) by {
            assert forall|o: int| in_window(game@, tf as int, pre_patch@.len() as int, o)
                implies !pre_at(game@, pre_patch@, o) && !post_at(game@, post_patch@, o) by {
                assert(false);
            }
        }
        return Err(PatchError::Unavailable);
    }

    let mut o = tf;
    while o <= upper - plen
        invariant
            n == game@.len(),
            plen == pre_patch@.len(),
            plen == post_patch@.len(),
            0 < plen <= upper,
            tf <= o <= upper - plen + 1,
            upper <= n,
            upper == window_end(game@, tf as int),
            anchor_unique_at(game@, target@, tf as int),
            forall|o2: int| tf <= o2 < o ==> !pre_at(game@, pre_patch@, o2) && !post_at(game@, post_patch@, o2),
        decreases upper - plen + 1 - o,
    {
        let chunk = &game[o..o + plen];
        if bytes_eq(chunk, post_patch) {
            assert(post_at(game@, post_patch@, o as int));
            assert(already_at(game@, pre_patch@, post_patch@, tf as int, o as int));
            return Err(PatchError::AlreadyApplied);
        }
        assert(!post_at(game@, post_patch@, o as int));
        if instruction_eq(chunk, pre_patch) {
            assert(pre_at(game@, pre_patch@, o as int));
            assert(resolves_at(game@, target@, pre_patch@, post_patch@, tf as int, o as int));
            return Ok(o);
        }
        assert(!pre_at(game@, pre_patch@, o as int));
        o = o + 1;
    }

    assert(window_exhausted(game@, pre_patch@, post_patch@, tf as int)) by {
        assert forall|o2: int| in_window(game@, tf as int, pre_patch@.len() as int, o2)
            implies !pre_at(game@, pre_patch@, o2) && !post_at(game@, post_patch@, o2) by {
            assert(o2 < o);
        }
    }
    Err(PatchError::Unavailable)
}

} // verus!

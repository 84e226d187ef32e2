//! General properties of the resolver and the applier, stated and proved
//! over the same spec functions the public contracts use.

use vstd::prelude::*;
use crate::errors::PatchError;
use crate::locate::already_at;
use crate::locate::anchor_at;
use crate::locate::anchor_unique_at;
use crate::locate::in_window;
use crate::locate::locate_ok;
use crate::locate::locate_spec;
use crate::locate::post_at;
use crate::locate::pre_at;
use crate::locate::resolves_at;
use crate::locate::window_exhausted;
use crate::matcher::byte_matches;
use crate::matcher::wild_match;
use crate::matcher::ANY;
use crate::patch::apply_parts;
use crate::patch::catalog;
use crate::patch::lemma_catalog_wf;
use crate::patch::lemma_splice_index;
use crate::patch::resolve_err;
use crate::patch::resolved_ok;
use crate::patch::splice;
use crate::patch::Patch;
use crate::patch::PatchPart;
use crate::patch::PatchTyp;

verus! {

/// A wildcard match is indifferent to what occupies the wildcard
/// positions: two windows that agree on every non-wildcard position of
/// the pattern match the pattern alike.
pub proof fn lemma_wildcard_indifferent(a: Seq<u8>, b: Seq<u8>, pat: Seq<u8>)
    requires
        a.len() == pat.len(),
        b.len() == pat.len(),
        forall|i: int| 0 <= i < pat.len() && pat[i] != ANY ==> a[i] == b[i],
    ensures
        wild_match(a, pat) == wild_match(b, pat),
{
    if wild_match(a, pat) {
        assert forall|i: int| 0 <= i < pat.len() implies #[trigger] byte_matches(b[i], pat[i]) by {
            assert(byte_matches(a[i], pat[i]));
        }
    }
    if wild_match(b, pat) {
        assert forall|i: int| 0 <= i < pat.len() implies #[trigger] byte_matches(a[i], pat[i]) by {
            assert(byte_matches(b[i], pat[i]));
        }
    }
}

/// If the `after` bytes stand somewhere in the window and no offset before
/// them matches the `before` pattern, the window scan ends in
/// `AlreadyApplied`: some offset at or before it is the first trigger,
/// and it triggers the literal `after` check.
proof fn lemma_first_trigger_is_post(img: Seq<u8>, pre: Seq<u8>, post: Seq<u8>, tf: int, o: int)
    requires
        pre.len() == post.len(),
        in_window(img, tf, pre.len() as int, o),
        post_at(img, post, o),
        forall|o2: int| tf <= o2 < o ==> !pre_at(img, pre, o2),
    ensures
        exists|o2: int| already_at(img, pre, post, tf, o2),
    decreases o - tf,
{
    if exists|o2: int| tf <= o2 < o && post_at(img, post, o2) {
        let o2 = choose|o2: int| tf <= o2 < o && post_at(img, post, o2);
        assert(in_window(img, tf, pre.len() as int, o2));
        lemma_first_trigger_is_post(img, pre, post, tf, o2);
    } else {
        assert(already_at(img, pre, post, tf, o));
    }
}

/// Idempotence of one sub-edit, where the patched image still carries the
/// anchor at its old offset alone and the written bytes created no new
/// `before` match earlier in the window: once the `after` bytes stand at
/// the resolved offset, resolving the same sub-edit again answers
/// `AlreadyApplied` — so a second application attempt stops at resolution
/// and never writes.
pub proof fn lemma_already_applied_after_apply(
    img: Seq<u8>,
    target: Seq<u8>,
    pre: Seq<u8>,
    post: Seq<u8>,
    tf: int,
    to: int,
)
    requires
        pre.len() > 0,
        pre.len() == post.len(),
        resolves_at(img, target, pre, post, tf, to),
        anchor_unique_at(splice(img, to, post), target, tf),
        forall|o: int| tf <= o < to ==> !pre_at(splice(img, to, post), pre, o),
    ensures
        locate_spec(splice(img, to, post), target, pre, post, Err(PatchError::AlreadyApplied)),
{
    let patched = splice(img, to, post);
    lemma_splice_index(img, to, post);
    assert(patched.subrange(to, to + post.len() as int) =~= post);
    assert(post_at(patched, post, to));
    assert(in_window(patched, tf, pre.len() as int, to));
    lemma_first_trigger_is_post(patched, pre, post, tf, to);
}

/// Idempotence at the patch level, for a capability whose definition
/// holds a single sub-edit: once a resolved patch has been applied,
/// resolving the same capability against the patched image answers
/// `AlreadyApplied` — so a second application attempt stops at resolution
/// and the image stays as it is. The provisos: the patched image must
/// still carry the anchor at its old offset alone, and the written bytes
/// must not have created an earlier `before` match inside the window.
pub proof fn lemma_patch_idempotent(img: Seq<u8>, t: PatchTyp, p: Patch, tf: int)
    requires
        catalog(t).len() == 1,
        resolved_ok(img, t, p),
        p.wf(),
        resolves_at(img, p.parts@[0]@.target, p.parts@[0]@.pre, p.parts@[0]@.post, tf, p.parts@[0]@.location),
        anchor_unique_at(apply_parts(img, p.parts@, 1), catalog(t)[0].target, tf),
        forall|o: int| tf <= o < p.parts@[0]@.location
            ==> !pre_at(apply_parts(img, p.parts@, 1), catalog(t)[0].pre, o),
    ensures
        resolve_err(apply_parts(img, p.parts@, 1), t, PatchError::AlreadyApplied),
{
    lemma_catalog_wf(t);
    let part = p.parts@[0]@;
    let patched = apply_parts(img, p.parts@, 1);
    assert(part.target == catalog(t)[0].target);
    assert(part.pre == catalog(t)[0].pre);
    assert(part.post == catalog(t)[0].post);
    assert(apply_parts(img, p.parts@, 0) == img);
    assert(patched == splice(img, part.location, part.post));
    lemma_already_applied_after_apply(img, part.target, part.pre, part.post, tf, part.location);
    assert(locate_spec(patched, catalog(t)[0].target, catalog(t)[0].pre, catalog(t)[0].post,
        Err(PatchError::AlreadyApplied)));
}

/// The write phase never changes the image's length.
pub proof fn lemma_apply_parts_len(img: Seq<u8>, parts: Seq<PatchPart>, n: int)
    requires
        0 <= n <= parts.len(),
        forall|i: int| 0 <= i < n ==> 0 <= (#[trigger] parts[i])@.location
            && parts[i]@.location + parts[i]@.post.len() <= img.len(),
    ensures
        apply_parts(img, parts, n).len() == img.len(),
    decreases n,
{
    if n > 0 {
        lemma_apply_parts_len(img, parts, n - 1);
        lemma_splice_index(apply_parts(img, parts, n - 1), parts[n - 1]@.location, parts[n - 1]@.post);
    }
}

/// The written ranges of two distinct sub-edits do not overlap.
pub open spec fn parts_disjoint(parts: Seq<PatchPart>) -> bool {
    forall|i: int, j: int| 0 <= i < parts.len() && 0 <= j < parts.len() && i != j
        ==> (#[trigger] parts[i])@.location + parts[i]@.post.len() <= (#[trigger] parts[j])@.location
            || parts[j]@.location + parts[j]@.post.len() <= parts[i]@.location
}

/// Round trip of the write phase: with every sub-edit in bounds and no two
/// written ranges overlapping, the applied image holds exactly each
/// sub-edit's `after` bytes at its resolved offset.
pub proof fn lemma_round_trip(img: Seq<u8>, parts: Seq<PatchPart>, n: int)
    requires
        0 <= n <= parts.len(),
        forall|i: int| 0 <= i < parts.len() ==> 0 <= (#[trigger] parts[i])@.location
            && parts[i]@.location + parts[i]@.post.len() <= img.len(),
        parts_disjoint(parts),
    ensures
        forall|i: int| 0 <= i < n ==> post_at(
            apply_parts(img, parts, n),
            (#[trigger] parts[i])@.post,
            parts[i]@.location,
        ),
    decreases n,
{
    if n > 0 {
        lemma_round_trip(img, parts, n - 1);
        let prev = apply_parts(img, parts, n - 1);
        let cur = apply_parts(img, parts, n);
        let loc = parts[n - 1]@.location;
        let post = parts[n - 1]@.post;
        lemma_apply_parts_len(img, parts, n - 1);
        lemma_splice_index(prev, loc, post);
        assert(cur.subrange(loc, loc + post.len() as int) =~= post);
        assert(post_at(cur, post, loc));
        assert forall|i: int| 0 <= i < n - 1 implies post_at(
            cur,
            (#[trigger] parts[i])@.post,
            parts[i]@.location,
        ) by {
            let loc_i = parts[i]@.location;
            let post_i = parts[i]@.post;
            assert(loc_i + post_i.len() <= loc || loc + post.len() <= loc_i);
            assert(cur.subrange(loc_i, loc_i + post_i.len() as int)
                =~= prev.subrange(loc_i, loc_i + post_i.len() as int));
        }
    }
}

/// After the round trip, a sub-edit whose `after` bytes do not
/// wildcard-match its `before` pattern can no longer be found by a
/// `before` scan at its offset.
pub proof fn lemma_round_trip_pre_gone(img: Seq<u8>, parts: Seq<PatchPart>, i: int)
    requires
        0 <= i < parts.len(),
        forall|j: int| 0 <= j < parts.len() ==> 0 <= (#[trigger] parts[j])@.location
            && parts[j]@.location + parts[j]@.post.len() <= img.len(),
        parts_disjoint(parts),
        parts[i]@.pre.len() == parts[i]@.post.len(),
        !wild_match(parts[i]@.post, parts[i]@.pre),
    ensures
        !pre_at(apply_parts(img, parts, parts.len() as int), parts[i]@.pre, parts[i]@.location),
{
    let n = parts.len() as int;
    let result = apply_parts(img, parts, n);
    lemma_round_trip(img, parts, n);
    lemma_apply_parts_len(img, parts, n);
    assert(post_at(result, parts[i]@.post, parts[i]@.location));
    assert(result.subrange(
        parts[i]@.location,
        parts[i]@.location + parts[i]@.pre.len() as int,
    ) == parts[i]@.post);
}

/// Two successful resolutions of the same sub-edit agree on the offset.
proof fn lemma_ok_unique(img: Seq<u8>, target: Seq<u8>, pre: Seq<u8>, post: Seq<u8>, to1: int, to2: int)
    requires
        locate_ok(img, target, pre, post, to1),
        locate_ok(img, target, pre, post, to2),
    ensures
        to1 == to2,
{
    let tf1 = choose|tf: int| resolves_at(img, target, pre, post, tf, to1);
    let tf2 = choose|tf: int| resolves_at(img, target, pre, post, tf, to2);
    assert(anchor_at(img, target, tf2));
    assert(tf2 == tf1);
    if to1 < to2 {
        assert(!pre_at(img, pre, to1));
        assert(false);
    }
    if to2 < to1 {
        assert(!pre_at(img, pre, to2));
        assert(false);
    }
}

/// The locator's contract admits exactly one answer: any two results that
/// satisfy `locate_spec` for the same image and patterns are equal. The
/// contract is not merely necessary for the implementation's answer, it
/// determines it.
pub proof fn lemma_locate_deterministic(
    img: Seq<u8>,
    target: Seq<u8>,
    pre: Seq<u8>,
    post: Seq<u8>,
    r1: Result<usize, PatchError>,
    r2: Result<usize, PatchError>,
)
    requires
        locate_spec(img, target, pre, post, r1),
        locate_spec(img, target, pre, post, r2),
    ensures
        r1 == r2,
{
    if r1 != r2 {
        lemma_locate_exclusive(img, target, pre, post, r1, r2);
        lemma_locate_exclusive(img, target, pre, post, r2, r1);
        match (r1, r2) {
            (Ok(a), Ok(b)) => {
                lemma_ok_unique(img, target, pre, post, a as int, b as int);
            },
            _ => {},
        }
    }
}

/// One direction of the pairwise refutations behind determinism.
proof fn lemma_locate_exclusive(
    img: Seq<u8>,
    target: Seq<u8>,
    pre: Seq<u8>,
    post: Seq<u8>,
    r1: Result<usize, PatchError>,
    r2: Result<usize, PatchError>,
)
    requires
        locate_spec(img, target, pre, post, r1),
        locate_spec(img, target, pre, post, r2),
    ensures
        match (r1, r2) {
            (Ok(_), Err(_)) => false,
            (Err(PatchError::AlreadyApplied), Err(PatchError::Unavailable)) => false,
            (Err(PatchError::AlreadyApplied), Err(PatchError::MultiplePossibleLocations)) => false,
            (Err(PatchError::Unavailable), Err(PatchError::MultiplePossibleLocations)) => false,
            _ => true,
        },
{
    match (r1, r2) {
        (Ok(to), Err(PatchError::AlreadyApplied)) => {
            let (tf2, o2) = choose|tf: int, o: int|
                #[trigger] anchor_unique_at(img, target, tf)
                && #[trigger] already_at(img, pre, post, tf, o);
            let tf1 = choose|tf: int| resolves_at(img, target, pre, post, tf, to as int);
            assert(anchor_at(img, target, tf2));
            assert(tf2 == tf1);
            if o2 < to as int {
                assert(!post_at(img, post, o2));
            } else if o2 == to as int {
                assert(!post_at(img, post, to as int));
            } else {
                assert(!pre_at(img, pre, to as int));
            }
        },
        (Ok(to), Err(PatchError::Unavailable)) => {
            let tf1 = choose|tf: int| resolves_at(img, target, pre, post, tf, to as int);
            assert(anchor_at(img, target, tf1));
            let tf2 = choose|tf: int| #[trigger] anchor_unique_at(img, target, tf)
                && window_exhausted(img, pre, post, tf);
            assert(tf2 == tf1);
            assert(in_window(img, tf2, pre.len() as int, to as int));
            assert(!pre_at(img, pre, to as int));
        },
        (Ok(to), Err(PatchError::MultiplePossibleLocations)) => {
            let (k1, k2) = choose|k1: int, k2: int|
                k1 != k2 && #[trigger] anchor_at(img, target, k1) && #[trigger] anchor_at(
                    img,
                    target,
                    k2,
                );
            lemma_ambiguity(img, target, pre, post, k1, k2, r1);
        },
        (Err(PatchError::AlreadyApplied), Err(PatchError::Unavailable)) => {
            let (tf, o) = choose|tf: int, o: int|
                #[trigger] anchor_unique_at(img, target, tf)
                && #[trigger] already_at(img, pre, post, tf, o);
            assert(anchor_at(img, target, tf));
            let tf2 = choose|tf2: int| #[trigger] anchor_unique_at(img, target, tf2)
                && window_exhausted(img, pre, post, tf2);
            assert(tf2 == tf);
            assert(in_window(img, tf, pre.len() as int, o));
            assert(!post_at(img, post, o));
        },
        (Err(PatchError::AlreadyApplied), Err(PatchError::MultiplePossibleLocations)) => {
            let (k1, k2) = choose|k1: int, k2: int|
                k1 != k2 && #[trigger] anchor_at(img, target, k1) && #[trigger] anchor_at(
                    img,
                    target,
                    k2,
                );
            lemma_ambiguity(img, target, pre, post, k1, k2, r1);
        },
        (Err(PatchError::Unavailable), Err(PatchError::MultiplePossibleLocations)) => {
            let (k1, k2) = choose|k1: int, k2: int|
                k1 != k2 && #[trigger] anchor_at(img, target, k1) && #[trigger] anchor_at(
                    img,
                    target,
                    k2,
                );
            lemma_ambiguity(img, target, pre, post, k1, k2, r1);
        },
        _ => {},
    }
}

/// Ambiguity is always fatal: with the anchor matching at two distinct
/// offsets, the only answer the locator's contract admits is
/// `MultiplePossibleLocations` — it never guesses among the matches.
pub proof fn lemma_ambiguity(
    img: Seq<u8>,
    target: Seq<u8>,
    pre: Seq<u8>,
    post: Seq<u8>,
    k1: int,
    k2: int,
    r: Result<usize, PatchError>,
)
    requires
        k1 != k2,
        anchor_at(img, target, k1),
        anchor_at(img, target, k2),
        locate_spec(img, target, pre, post, r),
    ensures
        r == Err::<usize, PatchError>(PatchError::MultiplePossibleLocations),
{
    match r {
        Ok(to) => {
            assert(locate_ok(img, target, pre, post, to as int));
            let tf = choose|tf: int| resolves_at(img, target, pre, post, tf, to as int);
            assert(anchor_unique_at(img, target, tf));
            assert(k1 == tf && k2 == tf);
        },
        Err(PatchError::AlreadyApplied) => {
            let (tf, o) = choose|tf: int, o: int|
                #[trigger] anchor_unique_at(img, target, tf)
                && #[trigger] already_at(img, pre, post, tf, o);
            assert(k1 == tf && k2 == tf);
        },
        Err(PatchError::Unavailable) => {
            if exists|tf: int| #[trigger] anchor_unique_at(img, target, tf)
                && window_exhausted(img, pre, post, tf) {
                let tf = choose|tf: int| #[trigger] anchor_unique_at(img, target, tf)
                    && window_exhausted(img, pre, post, tf);
                assert(k1 == tf && k2 == tf);
            } else {
                assert(!anchor_at(img, target, k1));
            }
        },
        Err(PatchError::MultiplePossibleLocations) => {},
        Err(PatchError::PatchFileDoesNotMatchTarget) => {},
    }
}

} // verus!

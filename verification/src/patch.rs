//! Patch data model and the transactional applier: a resolved patch is
//! verified against the image in full before a single byte is written.

use vstd::prelude::*;
use crate::errors::PatchError;
use crate::locate::find_location;
use crate::locate::locate_ok;
use crate::locate::locate_spec;
use crate::locate::pre_at;
use crate::matcher::instruction_eq;
use crate::matcher::ANY;

verus! {

/// One atomic rewrite within a patch: `target` is the anchor pattern used
/// to find a stable reference point, `pre_patch` the bytes expected before
/// mutation, `post_patch` the bytes written in their place, and `location`
/// the absolute offset computed at resolution time.
#[derive(Debug, Clone)]
pub struct PatchPart {
    pub target: Vec<u8>,
    pub location: usize,
    pub pre_patch: Vec<u8>,
    pub post_patch: Vec<u8>,
}

/// The mathematical image of one sub-edit.
pub ghost struct PartView {
    pub target: Seq<u8>,
    pub location: int,
    pub pre: Seq<u8>,
    pub post: Seq<u8>,
}

impl View for PatchPart {
    type V = PartView;

    open spec fn view(&self) -> PartView {
        PartView {
            target: self.target@,
            location: self.location as int,
            pre: self.pre_patch@,
            post: self.post_patch@,
        }
    }
}

/// The image with `bytes` written in place at offset `o`; everything
/// before and after the written range is kept.
pub open spec fn splice(img: Seq<u8>, o: int, bytes: Seq<u8>) -> Seq<u8> {
    img.subrange(0, o) + bytes + img.subrange(o + bytes.len(), img.len() as int)
}

/// Index-wise description of `splice`: inside the written range the new
/// bytes stand, outside it the image is untouched.
pub proof fn lemma_splice_index(img: Seq<u8>, o: int, bytes: Seq<u8>)
    requires
        0 <= o,
        o + bytes.len() <= img.len(),
    ensures
        splice(img, o, bytes).len() == img.len(),
        forall|i: int| 0 <= i < o ==> #[trigger] splice(img, o, bytes)[i] == img[i],
        forall|i: int| o <= i < o + bytes.len() ==> #[trigger] splice(img, o, bytes)[i] == bytes[i - o],
        forall|i: int| o + bytes.len() <= i < img.len() ==> #[trigger] splice(img, o, bytes)[i] == img[i],
{
}

/// Overwrite `bytes.len()` bytes of the image at offset `o`.
fn write_bytes(game: &mut Vec<u8>, o: usize, bytes: &Vec<u8>)
    requires
        o + bytes@.len() <= old(game)@.len(),
    ensures
        final(game)@ == splice(old(game)@, o as int, bytes@),
{
    let ghost orig = game@;
    let glen = game.len();
    let mut i: usize = 0;
    while i < bytes.len()
        invariant
            orig.len() == glen,
            o + bytes@.len() <= orig.len(),
            game@.len() == orig.len(),
            i <= bytes@.len(),
            forall|j: int| 0 <= j < orig.len() ==> game@[j] == (if o <= j < o + i {
                bytes@[j - o]
            } else {
                orig[j]
            }),
        decreases bytes@.len() - i,
    {
        game[o + i] = bytes[i];
        i = i + 1;
    }
    assert(game@ =~= splice(orig, o as int, bytes@));
}

/// The image after the write phase: every sub-edit's `after` bytes written
/// at its resolved offset, first `n` parts, in order.
pub open spec fn apply_parts(img: Seq<u8>, parts: Seq<PatchPart>, n: int) -> Seq<u8>
    decreases n,
{
    if n <= 0 {
        img
    } else {
        splice(apply_parts(img, parts, n - 1), parts[n - 1]@.location, parts[n - 1]@.post)
    }
}

/// The verify phase succeeds on `img`: every sub-edit's `before` pattern
/// still matches, wildcard-aware, at its resolved offset (which also puts
/// the whole range inside the image bounds).
pub open spec fn all_pre_match(img: Seq<u8>, parts: Seq<PatchPart>) -> bool {
    forall|i: int| 0 <= i < parts.len()
        ==> pre_at(img, (#[trigger] parts[i])@.pre, parts[i]@.location)
}

/// A named capability together with its resolved sub-edits, ready to apply
/// to the image it was resolved against.
#[derive(Debug, Clone)]
pub struct Patch {
    pub typ: PatchTyp,
    pub parts: Vec<PatchPart>,
}

/// The named patch capabilities of the catalog.
#[derive(Debug, Clone, Copy, PartialEq, Eq, Hash, Structural)]
pub enum PatchTyp {
    /// Enables ironman with any checksum.
    ModdedIronman,
    /// Enables loading saves in ironman and makes ironman saves available
    /// in that menu.
    EnableIronmanLoading,
    /// Turns normal saves into ironman saves by hovering over the load
    /// button during gameplay; mainly for testing.
    MidgameIronman,
}

impl Patch {
    /// Every sub-edit's replacement has exactly the length of what it
    /// replaces, so applying one sub-edit never shifts any other offset.
    pub open spec fn wf(&self) -> bool {
        forall|i: int| 0 <= i < self.parts@.len()
            ==> (#[trigger] self.parts@[i])@.pre.len() == self.parts@[i]@.post.len()
    }

    /// The capability this patch belongs to.
    pub fn typ(&self) -> (t: PatchTyp)
        ensures
            t == self.typ,
    {
        self.typ
    }

    /// Two-phase, all-or-nothing application. The verify phase re-checks
    /// every sub-edit's `before` bytes against the image; not a single
    /// byte is written unless all of them still match, and then every
    /// sub-edit's `after` bytes are written at its resolved offset. On any
    /// mismatch the image is left byte-for-byte unchanged.
    pub fn apply(&self, game: &mut Vec<u8>) -> (r: Result<(), PatchError>)
        requires
            self.wf(),
        ensures
            match r {
                Ok(()) => all_pre_match(old(game)@, self.parts@) && final(game)@ == apply_parts(
                    old(game)@,
                    self.parts@,
                    self.parts@.len() as int,
                ),
                Err(PatchError::PatchFileDoesNotMatchTarget) => !all_pre_match(
                    old(game)@,
                    self.parts@,
                ) && final(game)@ == old(game)@,
                Err(_) => false,
            },
    {
        let ghost orig = game@;
        let mut i: usize = 0;
        while i < self.parts.len()
            invariant
                game@ == orig,
                i <= self.parts@.len(),
                forall|j: int| 0 <= j < i ==> pre_at(
                    orig,
                    (#[trigger] self.parts@[j])@.pre,
                    self.parts@[j]@.location,
                ),
            decreases self.parts@.len() - i,
        {
            let part = &self.parts[i];
            let plen = part.pre_patch.len();
            if game.len() < part.location || game.len() - part.location < plen {
                assert(!pre_at(orig, self.parts@[i as int]@.pre, self.parts@[i as int]@.location));
                return Err(PatchError::PatchFileDoesNotMatchTarget);
            }
            let chunk = &game[part.location..part.location + plen];
            if !instruction_eq(chunk, part.pre_patch.as_slice()) {
                assert(!pre_at(orig, self.parts@[i as int]@.pre, self.parts@[i as int]@.location));
                return Err(PatchError::PatchFileDoesNotMatchTarget);
            }
            assert(pre_at(orig, self.parts@[i as int]@.pre, self.parts@[i as int]@.location));
            i = i + 1;
        }
        assert(all_pre_match(orig, self.parts@));

        let mut i: usize = 0;
        while i < self.parts.len()
            invariant
                self.wf(),
                all_pre_match(orig, self.parts@),
                i <= self.parts@.len(),
                game@.len() == orig.len(),
                game@ == apply_parts(orig, self.parts@, i as int),
            decreases self.parts@.len() - i,
        {
            let part = &self.parts[i];
            assert(pre_at(orig, self.parts@[i as int]@.pre, self.parts@[i as int]@.location));
            write_bytes(game, part.location, &part.post_patch);
            i = i + 1;
        }
        Ok(())
    }
}

/// What one sub-edit of the catalog asks for, before resolution.
pub ghost struct PartSpec {
    pub target: Seq<u8>,
    pub pre: Seq<u8>,
    pub post: Seq<u8>,
}

/// The fixed catalog: the byte signatures every capability stands for.
/// Wildcard positions in a pattern hold the reserved `ANY` byte.
pub open spec fn catalog(t: PatchTyp) -> Seq<PartSpec> {
    match t {
        PatchTyp::ModdedIronman => seq![
            PartSpec {
                target: seq![
                    0x01u8, 0x48, 0x8D, 0x97, 0x58, 0x02, 0x00, 0x00, 0x48, 0x83, 0x7A, 0x18,
                    0x10, 0x72, 0x03,
                ],
                pre: seq![0x0Fu8, 0x94, 0xC3],
                post: seq![0x40u8, 0xFE, 0xC3],
            },
        ],
        PatchTyp::EnableIronmanLoading => seq![
            PartSpec {
                target: seq![
                    0xD2u8, 0x48, 0x8B, 0x01, 0x4C, 0x8B, 0x80, 0x80, 0x00, 0x00, 0x00, 0x4C,
                    0x3B, 0xC7, 0x75, 0x14, 0x84, 0xD2, 0x74, 0x08,
                ],
                pre: seq![0x74u8, 0x08],
                post: seq![0x90u8, 0x90],
            },
            PartSpec {
                target: seq![
                    0xD7u8, 0x49, 0x8B, 0xCC, 0x41, 0xFF, 0x50, 0x28, 0x84, 0xC0, 0x0F, 0x84,
                    0x9C, 0x00, 0x00, 0x00,
                ],
                pre: seq![0x0Fu8, 0x84, 0x9C, 0x00, 0x00, 0x00],
                post: seq![0x90u8, 0x90, 0x90, 0x90, 0x90, 0x90],
            },
        ],
        PatchTyp::MidgameIronman => seq![
            PartSpec {
                target: seq![
                    0x48u8, 0x8B, 0x05, ANY, ANY, ANY, ANY, 0x80, 0xB8, ANY, 0x24, 0x00, 0x00,
                    0x00, 0x74, 0x0C,
                ],
                pre: seq![0x80u8, 0xB8, ANY, 0x24, 0x00, 0x00, 0x00, 0x74],
                post: seq![0xC6u8, 0x80, 0xF0, 0x24, 0x00, 0x00, 0x00, 0xEB],
            },
        ],
    }
}

/// Structural facts of one catalog entry: nonempty anchor, nonempty
/// `before`, and `before`/`after` of equal length.
pub open spec fn catalog_entry_wf(p: PartSpec) -> bool {
    &&& p.target.len() > 0
    &&& p.pre.len() > 0
    &&& p.pre.len() == p.post.len()
}

/// Every entry of every capability's definition is structurally sound.
pub proof fn lemma_catalog_wf(t: PatchTyp)
    ensures
        forall|i: int| 0 <= i < catalog(t).len() ==> catalog_entry_wf(#[trigger] catalog(t)[i]),
{
    match t {
        PatchTyp::ModdedIronman => {
            assert(catalog_entry_wf(catalog(t)[0]));
        },
        PatchTyp::EnableIronmanLoading => {
            assert(catalog_entry_wf(catalog(t)[0]));
            assert(catalog_entry_wf(catalog(t)[1]));
        },
        PatchTyp::MidgameIronman => {
            assert(catalog_entry_wf(catalog(t)[0]));
        },
    }
}

/// How many sub-edits the capability's definition holds.
fn catalog_len(t: PatchTyp) -> (n: usize)
    ensures
        n == catalog(t).len(),
{
    match t {
        PatchTyp::ModdedIronman => 1,
        PatchTyp::EnableIronmanLoading => 2,
        PatchTyp::MidgameIronman => 1,
    }
}

/// Build the `i`-th sub-edit of the capability's definition, unresolved
/// (location zero).
fn catalog_part(t: PatchTyp, i: usize) -> (part: PatchPart)
    requires
        i < catalog(t).len(),
    ensures
        part@.target == catalog(t)[i as int].target,
        part@.pre == catalog(t)[i as int].pre,
        part@.post == catalog(t)[i as int].post,
{
    match t {
        PatchTyp::ModdedIronman => {
            let target: Vec<u8> = vec![
                0x01, 0x48, 0x8D, 0x97, 0x58, 0x02, 0x00, 0x00, 0x48, 0x83, 0x7A, 0x18, 0x10,
                0x72, 0x03,
            ];
            let pre_patch: Vec<u8> = vec![0x0F, 0x94, 0xC3];
            let post_patch: Vec<u8> = vec![0x40, 0xFE, 0xC3];
            proof {
                assert(target@ =~= catalog(t)[i as int].target);
                assert(pre_patch@ =~= catalog(t)[i as int].pre);
                assert(post_patch@ =~= catalog(t)[i as int].post);
            }
            PatchPart { target, location: 0, pre_patch, post_patch }
        },
        PatchTyp::EnableIronmanLoading => {
            if i == 0 {
                let target: Vec<u8> = vec![
                    0xD2, 0x48, 0x8B, 0x01, 0x4C, 0x8B, 0x80, 0x80, 0x00, 0x00, 0x00, 0x4C, 0x3B,
                    0xC7, 0x75, 0x14, 0x84, 0xD2, 0x74, 0x08,
                ];
                let pre_patch: Vec<u8> = vec![0x74, 0x08];
                let post_patch: Vec<u8> = vec![0x90, 0x90];
                proof {
                    assert(target@ =~= catalog(t)[i as int].target);
                    assert(pre_patch@ =~= catalog(t)[i as int].pre);
                    assert(post_patch@ =~= catalog(t)[i as int].post);
                }
                PatchPart { target, location: 0, pre_patch, post_patch }
            } else {
                let target: Vec<u8> = vec![
                    0xD7, 0x49, 0x8B, 0xCC, 0x41, 0xFF, 0x50, 0x28, 0x84, 0xC0, 0x0F, 0x84, 0x9C,
                    0x00, 0x00, 0x00,
                ];
                let pre_patch: Vec<u8> = vec![0x0F, 0x84, 0x9C, 0x00, 0x00, 0x00];
                let post_patch: Vec<u8> = vec![0x90, 0x90, 0x90, 0x90, 0x90, 0x90];
                proof {
                    assert(target@ =~= catalog(t)[i as int].target);
                    assert(pre_patch@ =~= catalog(t)[i as int].pre);
                    assert(post_patch@ =~= catalog(t)[i as int].post);
                }
                PatchPart { target, location: 0, pre_patch, post_patch }
            }
        },
        PatchTyp::MidgameIronman => {
            let target: Vec<u8> = vec![
                0x48, 0x8B, 0x05, ANY, ANY, ANY, ANY, 0x80, 0xB8, ANY, 0x24, 0x00, 0x00, 0x00,
                0x74, 0x0C,
            ];
            let pre_patch: Vec<u8> = vec![0x80, 0xB8, ANY, 0x24, 0x00, 0x00, 0x00, 0x74];
            let post_patch: Vec<u8> = vec![0xC6, 0x80, 0xF0, 0x24, 0x00, 0x00, 0x00, 0xEB];
            proof {
                assert(target@ =~= catalog(t)[i as int].target);
                assert(pre_patch@ =~= catalog(t)[i as int].pre);
                assert(post_patch@ =~= catalog(t)[i as int].post);
            }
            PatchPart { target, location: 0, pre_patch, post_patch }
        },
    }
}

/// Some offset resolves the catalog entry `p` against the image.
pub open spec fn entry_resolvable(img: Seq<u8>, p: PartSpec) -> bool {
    exists|to: int| locate_ok(img, p.target, p.pre, p.post, to)
}

/// `p` is what successful resolution of capability `t` against the image
/// yields: the catalog's patterns, each carrying the offset the locator
/// resolves it to.
pub open spec fn resolved_ok(img: Seq<u8>, t: PatchTyp, p: Patch) -> bool {
    &&& p.typ == t
    &&& p.parts@.len() == catalog(t).len()
    &&& forall|i: int| 0 <= i < catalog(t).len() ==> {
        &&& (#[trigger] p.parts@[i])@.target == catalog(t)[i].target
        &&& p.parts@[i]@.pre == catalog(t)[i].pre
        &&& p.parts@[i]@.post == catalog(t)[i].post
        &&& locate_ok(
            img,
            catalog(t)[i].target,
            catalog(t)[i].pre,
            catalog(t)[i].post,
            p.parts@[i]@.location,
        )
    }
}

/// Resolution of capability `t` against the image fails with `e`: some
/// sub-edit's location scan yields exactly `e` while every earlier
/// sub-edit resolves (the first failure aborts the whole resolution).
pub open spec fn resolve_err(img: Seq<u8>, t: PatchTyp, e: PatchError) -> bool {
    exists|i: int| {
        &&& 0 <= i < catalog(t).len()
        &&& locate_spec(
            img,
            (#[trigger] catalog(t)[i]).target,
            catalog(t)[i].pre,
            catalog(t)[i].post,
            Err(e),
        )
        &&& forall|j: int| 0 <= j < i ==> entry_resolvable(img, catalog(t)[j])
    }
}

impl PatchTyp {
    /// Resolve this capability against the image: for every sub-edit of
    /// its definition, scan the whole image for the anchor (which must
    /// match at exactly one offset) and locate the sub-edit inside the
    /// bounded window after it. Returns the fully resolved patch only if
    /// every sub-edit resolves; the first failure aborts with its error.
    pub fn find_patch(&self, game: &[u8]) -> (r: Result<Patch, PatchError>)
        ensures
            match r {
                Ok(p) => resolved_ok(game@, *self, p) && p.wf(),
                Err(e) => resolve_err(game@, *self, e),
            },
    {
        proof {
            lemma_catalog_wf(*self);
        }
        let count = catalog_len(*self);
        let mut parts: Vec<PatchPart> = Vec::new();
        let mut i: usize = 0;
        while i < count
            invariant
                count == catalog(*self).len(),
                forall|j: int| 0 <= j < count ==> catalog_entry_wf(#[trigger] catalog(*self)[j]),
                i <= count,
                parts@.len() == i,
                forall|j: int| 0 <= j < i ==> {
                    &&& (#[trigger] parts@[j])@.target == catalog(*self)[j].target
                    &&& parts@[j]@.pre == catalog(*self)[j].pre
                    &&& parts@[j]@.post == catalog(*self)[j].post
                    &&& locate_ok(
                        game@,
                        catalog(*self)[j].target,
                        catalog(*self)[j].pre,
                        catalog(*self)[j].post,
                        parts@[j]@.location,
                    )
                },
            decreases count - i,
        {
            let part = catalog_part(*self, i);
            let loc = match find_location(
                game,
                part.target.as_slice(),
                part.pre_patch.as_slice(),
                part.post_patch.as_slice(),
            ) {
                Ok(l) => l,
                Err(e) => {
                    proof {
                        assert forall|j: int| 0 <= j < i implies entry_resolvable(
                            game@,
                            catalog(*self)[j],
                        ) by {
                            assert(locate_ok(
                                game@,
                                catalog(*self)[j].target,
                                catalog(*self)[j].pre,
                                catalog(*self)[j].post,
                                parts@[j]@.location,
                            ));
                        }
                        assert(resolve_err(game@, *self, e)) by {
                            assert(locate_spec(
                                game@,
                                catalog(*self)[i as int].target,
                                catalog(*self)[i as int].pre,
                                catalog(*self)[i as int].post,
                                Err(e),
                            ));
                        }
                    }
                    return Err(e);
                },
            };
            let PatchPart { target, location: _, pre_patch, post_patch } = part;
            parts.push(PatchPart { target, location: loc, pre_patch, post_patch });
            i = i + 1;
        }
        let p = Patch { typ: *self, parts };
        assert(resolved_ok(game@, *self, p));
        assert(p.wf());
        Ok(p)
    }
}

} // verus!

//! The error kinds shared by resolution and application.

use vstd::prelude::*;

verus! {

/// Why a patch could not be resolved or applied. All four kinds are
/// non-fatal to the process; each carries distinct caller semantics.
#[derive(Debug, Clone, Copy, PartialEq, Eq, Structural)]
pub enum PatchError {
    /// No matching location was found for an anchor or a sub-edit:
    /// this capability cannot be applied to this image.
    Unavailable,
    /// The sub-edit's bytes already equal the target post-state; callers
    /// may treat this as a non-error skip.
    AlreadyApplied,
    /// Verify-phase mismatch at apply time: the image changed between
    /// resolution and application.
    PatchFileDoesNotMatchTarget,
    /// The anchor matched at more than one offset; patching an arbitrary
    /// one is unacceptable, so resolution aborts.
    MultiplePossibleLocations,
}

} // verus!

//! Signature-based binary patcher: locates anchor byte sequences (with
//! wildcard positions) in an executable image, resolves the concrete offset
//! of each sub-edit near its anchor, and applies all edits transactionally.

pub mod errors;
pub mod matcher;
pub mod locate;
pub mod patch;
pub mod laws;

pub use errors::PatchError;
pub use matcher::instruction_eq;
pub use locate::find_location;
pub use patch::Patch;
pub use patch::PatchTyp;

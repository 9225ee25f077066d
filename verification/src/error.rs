//! The ways in which the library's operations fail.

use vstd::prelude::*;

verus! {

/// Why an operation gave no result.
#[derive(Debug, Clone, Copy, PartialEq, Eq, Structural)]
pub enum Error {
    /// The bytes of a file are not text in the encoding that they announce.
    Parse,
    /// No segment of a path names a locale directory.
    LocaleResolution,
    /// No file of the base locale holds the phrase.
    NotFound,
    /// Every source of translations was tried without success.
    Unresolved,
    /// A collaborator (search, fetch, machine translation, directory copy)
    /// reported a failure.
    Collaborator,
}

} // verus!

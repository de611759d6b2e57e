//! Error taxonomy of the library.
//!
//! Per-file classification failures are recoverable: callers fall back to the
//! original filename instead of aborting. I/O and cache-decoding failures
//! live with the unverified shell around this crate, which wraps this enum.

use vstd::prelude::*;

verus! {

/// Why a filename could not be classified or a path could not be mapped.
#[derive(Debug, Clone, Copy, PartialEq, Eq, Structural)]
pub enum Error {
    /// No token of the filename stem denotes an episode number.
    EpisodeNotFound,
    /// The filename carries no extension (informational; never fatal).
    ExtensionNotFound,
    /// The file does not lie under the source root.
    InvalidPath,
    /// A filename component is not representable as text.
    InvalidUnicodeFilename,
}

impl Error {
    /// A human-readable description of the error.
    pub fn message(&self) -> (r: &'static str)
        ensures
            r@ == self.spec_message(),
    {
        match self {
            Error::EpisodeNotFound => "Can not parse as a episode",
            Error::ExtensionNotFound => "Can not find a file extension",
            Error::InvalidPath => "Not a valid path.",
            Error::InvalidUnicodeFilename => "Not a valid Unicode File name.",
        }
    }

    /// The description promised by [`Error::message`].
    pub open spec fn spec_message(self) -> Seq<char> {
        match self {
            Error::EpisodeNotFound => "Can not parse as a episode"@,
            Error::ExtensionNotFound => "Can not find a file extension"@,
            Error::InvalidPath => "Not a valid path."@,
            Error::InvalidUnicodeFilename => "Not a valid Unicode File name."@,
        }
    }
}

} // verus!

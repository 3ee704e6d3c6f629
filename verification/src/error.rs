//! The error kinds that registry and release-note operations can surface.

use vstd::prelude::*;

verus! {

/// Why a registry or release-note operation failed.
///
/// Every fallible operation reports one of these three distinct kinds, so a
/// caller can tell a transport failure from corrupt text from a filesystem
/// problem.
#[derive(Clone, Copy, Debug, PartialEq, Eq, Structural)]
pub enum Error {
    /// A transport failure or a non-success HTTP status.
    Network,
    /// Malformed structured text, or a missing or mistyped field.
    Parse,
    /// A file could not be read, created or written.
    Io,
}

impl Error {
    /// A short human-readable description of the error kind.
    pub fn describe(&self) -> (r: &'static str)
        ensures
            *self is Network ==> r@ == "network failure"@,
            *self is Parse ==> r@ == "malformed structured text"@,
            *self is Io ==> r@ == "file could not be read or written"@,
    {
        match self {
            Error::Network => "network failure",
            Error::Parse => "malformed structured text",
            Error::Io => "file could not be read or written",
        }
    }
}

} // verus!

//! The kinds of error that the service reports.

use vstd::prelude::*;

verus! {

/// Why an operation was refused.
#[derive(Clone, Copy, Debug, PartialEq, Eq, Structural)]
pub enum Error {
    /// The credentials match no registered user.
    Unauthorized,
    /// No blob is stored under the identifier, or the user does not own it.
    NotFound,
    /// The identifier or the username is already taken.
    AlreadyExists,
    /// A registry snapshot breaks the registry's invariant.
    CorruptState,
    /// The storage underneath failed.
    StorageError,
}

impl Error {
    /// The text that describes each kind of error.
    pub open spec fn text(self) -> Seq<char> {
        match self {
            Error::Unauthorized => "Not authorized"@,
            Error::NotFound => "Paste not found"@,
            Error::AlreadyExists => "Already exists"@,
            Error::CorruptState => "Corrupt state"@,
            Error::StorageError => "Storage error"@,
        }
    }

    /// A short description for whoever reports the error.
    pub fn message(&self) -> (msg: &'static str)
        ensures
            msg@ == self.text(),
    {
        match self {
            Error::Unauthorized => "Not authorized",
            Error::NotFound => "Paste not found",
            Error::AlreadyExists => "Already exists",
            Error::CorruptState => "Corrupt state",
            Error::StorageError => "Storage error",
        }
    }
}

} // verus!

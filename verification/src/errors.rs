//! The error taxonomy of the copier.
//!
//! Every failure of the copy walk is one of four kinds.  The three
//! precondition kinds are raised before any entry of the offending
//! directory is touched; `IoFailure` stands for an underlying file
//! operation going wrong, such as opening a directory path for writing.

use vstd::prelude::*;

verus! {

/// What went wrong during a copy operation.
#[derive(Clone, Copy, Debug, PartialEq, Eq, Structural)]
pub enum ErrorKind {
    /// The path supplied as a source directory is actually a regular file.
    SourceIsFile,
    /// The corresponding destination path is actually a regular file.
    DestinationIsFile,
    /// A directory being traversed contains no entries at all.
    EmptySource,
    /// An underlying read, write, create or list operation failed.
    IoFailure,
}

/// An error surfaced by the copier: a human-readable message together
/// with the kind that classifies it.
#[derive(Debug)]
pub struct CupeyError {
    message: String,
    error_kind: ErrorKind,
}

impl CupeyError {
    /// The kind of this error, as seen by specifications.
    pub closed spec fn kind(&self) -> ErrorKind {
        self.error_kind
    }

    /// The message of this error, as seen by specifications.
    pub closed spec fn msg(&self) -> Seq<char> {
        self.message@
    }

    pub fn new(message: String, error_kind: ErrorKind) -> (r: Self)
        ensures
            r.kind() == error_kind,
            r.msg() == message@,
    {
        CupeyError { message, error_kind }
    }

    /// The kind of this error.
    pub fn error_kind(&self) -> (k: ErrorKind)
        ensures
            k == self.kind(),
    {
        self.error_kind
    }

    /// The human-readable message carried by this error.
    pub fn message(&self) -> (m: &str)
        ensures
            m@ == self.msg(),
    {
        self.message.as_str()
    }
}

} // verus!

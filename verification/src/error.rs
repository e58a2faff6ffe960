//! The error type of the archive manager: a kind tag plus a rendered message.

use vstd::prelude::*;

verus! {

/// What went wrong, as a tag that callers can match on.
#[derive(Debug, Clone, Copy, PartialEq, Eq, Structural)]
pub enum ErrorKind {
    /// The requested file is not found.
    FileNotFound,
    /// Store folder is nonexistent or corrupted.
    StoreFolder,
    /// Thumbnail folder is nonexistent or corrupted.
    ThumbnailFolder,
    /// Errors emitted by the file-type classification oracle.
    Magic,
    /// Generic IO errors.
    IO,
    /// Database errors.
    DB,
    /// The file is not yet supported by vorg.
    Unsupported,
    /// The item to import exists already in the repo.
    Duplicate,
    /// Wrong arguments to the commandline util.
    WrongArguments,
}

/// An error with a human-readable message.
#[derive(Debug)]
pub struct Error {
    pub msg: String,
    pub kind: ErrorKind,
}

impl Error {
    /// The human-readable message.
    pub fn message(&self) -> (r: &str)
        ensures
            r@ == self.msg@,
    {
        self.msg.as_str()
    }
}

} // verus!

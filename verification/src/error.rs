//! The error taxonomy shared by every component of the catalog.

use vstd::prelude::*;

verus! {

/// Every failure a catalog operation can report.
#[derive(Clone, Copy, Debug, PartialEq, Eq, Structural)]
pub enum CoreError {
    /// A key (song path, playlist or list name) was absent on lookup, modify or remove.
    NotFound,
    /// A create, insert or rename collided with a key already present.
    AlreadyExists,
    /// An index-based edit named a position outside the current length.
    IndexOutOfRange,
    /// A persisted document exists but could not be parsed.
    StorageCorrupt,
    /// A persisted document could not be written out.
    StorageWriteFailed,
    /// The external tag reader failed on a file.
    TagParseError,
    /// The external tag writer failed on a file.
    TagWriteError,
    /// A watch was requested for a root that is already registered.
    AlreadyWatched,
    /// An unwatch was requested for a root that was never registered.
    NotWatched,
    /// A generic filesystem operation (delete, copy) failed.
    FsOperationFailed,
}

pub type CoreResult<T> = Result<T, CoreError>;

impl CoreError {
    /// A short human-readable description, for display by callers.
    pub fn message(&self) -> (r: &'static str)
        ensures
            r@.len() > 0,
    {
        proof {
            reveal_strlit("key not found");
            reveal_strlit("key already exists");
            reveal_strlit("index out of range");
            reveal_strlit("stored document is corrupt");
            reveal_strlit("stored document could not be written");
            reveal_strlit("tag parse failed");
            reveal_strlit("tag write failed");
            reveal_strlit("path is already watched");
            reveal_strlit("path is not watched");
            reveal_strlit("filesystem operation failed");
        }
        match self {
            CoreError::NotFound => "key not found",
            CoreError::AlreadyExists => "key already exists",
            CoreError::IndexOutOfRange => "index out of range",
            CoreError::StorageCorrupt => "stored document is corrupt",
            CoreError::StorageWriteFailed => "stored document could not be written",
            CoreError::TagParseError => "tag parse failed",
            CoreError::TagWriteError => "tag write failed",
            CoreError::AlreadyWatched => "path is already watched",
            CoreError::NotWatched => "path is not watched",
            CoreError::FsOperationFailed => "filesystem operation failed",
        }
    }
}

} // verus!

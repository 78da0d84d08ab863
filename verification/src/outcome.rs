//! The statuses and outcomes that the tool's operations report.

use vstd::prelude::*;

verus! {

/// What a filesystem path is: nothing, a directory, or a file.
#[derive(Debug, Clone, Copy, PartialEq, Eq, Structural)]
pub enum PathStatus {
    NotFound,
    Directory,
    File,
}

/// Outcome of initializing a repository in a directory.
#[derive(Debug, Clone, Copy, PartialEq, Eq, Structural)]
pub enum InitResult {
    /// The marker directory is already there.
    AlreadyInitialized,
    /// A file occupies the marker name; the user must remove it.
    BlockedByFile,
    Created,
    /// The marker directory could not be created.
    Failed,
}

/// What went wrong during a save or a restore lookup.
#[derive(Debug, Clone, Copy, PartialEq, Eq, Structural)]
pub enum RepoError {
    /// The save command was given no file name.
    MissingFileName,
    /// The save target does not exist.
    InputNotFound,
    /// The save target is a directory, not a file.
    InputIsDirectory,
    /// No file name could be read off the given path.
    InvalidFileName,
    /// No marker directory was found walking upward.
    RepositoryNotFound,
    /// A snapshot of the same name for the same minute is already stored.
    DuplicateSnapshot,
    /// The current time could not be determined.
    ClockUnavailable,
}

} // verus!

//! Snapshot export: the creator handle and its error taxonomy.
//!
//! Packaging a database file into a compressed archive is file I/O
//! from end to end, so the work itself lives with the binary around
//! this library; the types it is driven and reported through are
//! defined here.

use vstd::prelude::*;

verus! {

/// Creates compressed snapshot archives from database files.
pub struct SnapshotCreator;

impl SnapshotCreator {
    /// Creates a new snapshot creator.
    pub fn new() -> (r: SnapshotCreator)
        ensures
            r == SnapshotCreator,
    {
        SnapshotCreator
    }
}

/// Errors that can occur during snapshot creation.
#[derive(Debug, PartialEq, Eq)]
pub enum SnapshotError {
    /// I/O failure during file operations, with the underlying
    /// error's message.
    Io(String),
    /// The database file to archive does not exist.
    DatabaseNotFound,
    /// Archive creation failed.
    ArchiveCreation(String),
}

/// Result type for snapshot operations.
pub type SnapshotResult<T> = Result<T, SnapshotError>;

} // verus!

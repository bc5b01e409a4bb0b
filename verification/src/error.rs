//! Errors of the import pipeline.
//!
//! Nothing here is retried: ordering violations point at corrupt
//! source data or a caller bug, and store faults abort the batch
//! before anything is committed.

use vstd::prelude::*;

verus! {

/// The storage segment a cursor belongs to.
#[derive(Clone, Copy, Debug, PartialEq, Eq, Structural)]
pub enum SegmentKind {
    /// Headers, keyed by block number.
    Headers,
    /// Bodies, keyed by block number.
    Bodies,
    /// Receipts, keyed by global transaction number.
    Receipts,
}

/// Why an import run stopped.
#[derive(Clone, Copy, Debug, PartialEq, Eq, Structural)]
pub enum ImportError {
    /// The store's highest header has no total-difficulty record, so
    /// nothing further can be accumulated safely.
    TotalDifficultyNotFound { height: u64 },
    /// Adding a block's difficulty would overflow 256 bits.
    TotalDifficultyOverflow { number: u64 },
    /// An append's key did not match the segment's next expected key.
    SegmentOrdering { segment: SegmentKind, expected: u64, got: u64 },
    /// A segment cursor ran out of key space.
    CursorOverflow { segment: SegmentKind },
    /// A block was finalized on the receipts segment out of order.
    ReceiptBlockOrdering { expected: u64, got: u64 },
    /// No body index was found for a block whose body was just
    /// written; an internal-consistency failure, not an I/O fault.
    MissingBodyIndices { number: u64 },
    /// The running transaction number would overflow while chaining a
    /// body's index range.
    TxNumberOverflow { number: u64 },
    /// The checkpoint record could not be persisted; the paired
    /// segment writes are discarded with it.
    CheckpointWriteFailed,
    /// A batch was staged against a different store state than the one
    /// it is being committed to.
    StaleBatch { expected: u64, got: u64 },
    /// A commit tried to move a checkpoint backwards.
    CheckpointRewound { have: u64, new: u64 },
}

} // verus!

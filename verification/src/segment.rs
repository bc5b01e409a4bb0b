//! Append-only segment cursors.
//!
//! Each storage segment has one writer tracking the next expected
//! key. An append whose key is not exactly that key fails with an
//! ordering error and leaves the writer untouched: out-of-order data
//! is a bug in the source or the caller, never reordered or skipped
//! here. Skipping is legal only at block granularity, before any
//! append is attempted.

use vstd::prelude::*;

use crate::error::{ImportError, SegmentKind};

verus! {

/// An append-only cursor over one storage segment.
#[derive(Clone, Copy, Debug, PartialEq, Eq, Structural)]
pub struct SegmentWriter {
    /// Which segment this cursor writes.
    pub kind: SegmentKind,
    /// The key the next append must carry.
    pub next_key: u64,
}

impl SegmentWriter {
    /// A writer positioned at `next_key`.
    pub fn new(kind: SegmentKind, next_key: u64) -> (r: SegmentWriter)
        ensures
            r == (SegmentWriter { kind, next_key }),
    {
        SegmentWriter { kind, next_key }
    }

    /// Accepts the append of `key` exactly when it equals the next
    /// expected key, advancing the cursor by one; any mismatch is an
    /// ordering error that does not move the cursor.
    pub fn append(&mut self, key: u64) -> (r: Result<(), ImportError>)
        ensures
            r is Ok <==> (key == old(self).next_key && key < u64::MAX),
            r is Ok ==> *final(self) == (SegmentWriter { next_key: (key + 1) as u64, ..*old(self) }),
            r is Err ==> *final(self) == *old(self),
            key != old(self).next_key ==> r == Err::<(), ImportError>(
                ImportError::SegmentOrdering {
                    segment: old(self).kind,
                    expected: old(self).next_key,
                    got: key,
                },
            ),
            key == old(self).next_key && key == u64::MAX ==> r == Err::<(), ImportError>(
                ImportError::CursorOverflow { segment: old(self).kind },
            ),
    {
        if key != self.next_key {
            Err(ImportError::SegmentOrdering { segment: self.kind, expected: self.next_key, got: key })
        } else if key == u64::MAX {
            Err(ImportError::CursorOverflow { segment: self.kind })
        } else {
            self.next_key = key + 1;
            Ok(())
        }
    }
}

/// The receipts segment's writer: a transaction-number cursor plus a
/// block cursor that is advanced once per block, after all of the
/// block's receipts have been appended.
#[derive(Clone, Copy, Debug, PartialEq, Eq, Structural)]
pub struct ReceiptWriter {
    /// Cursor over global transaction numbers.
    pub txs: SegmentWriter,
    /// The block number the next `increment_block` must carry.
    pub next_block: u64,
}

impl ReceiptWriter {
    /// A writer expecting transaction number `next_tx` and block
    /// number `next_block`.
    pub fn new(next_tx: u64, next_block: u64) -> (r: ReceiptWriter)
        ensures
            r == (ReceiptWriter {
                txs: SegmentWriter { kind: SegmentKind::Receipts, next_key: next_tx },
                next_block,
            }),
    {
        ReceiptWriter { txs: SegmentWriter::new(SegmentKind::Receipts, next_tx), next_block }
    }

    /// Accepts one receipt at `tx_number` exactly when it equals the
    /// running transaction counter.
    pub fn append_receipt(&mut self, tx_number: u64) -> (r: Result<(), ImportError>)
        ensures
            r is Ok <==> (tx_number == old(self).txs.next_key && tx_number < u64::MAX),
            r is Ok ==> *final(self) == (ReceiptWriter {
                txs: SegmentWriter { next_key: (tx_number + 1) as u64, ..old(self).txs },
                ..*old(self)
            }),
            r is Err ==> *final(self) == *old(self),
            tx_number != old(self).txs.next_key ==> r == Err::<(), ImportError>(
                ImportError::SegmentOrdering {
                    segment: old(self).txs.kind,
                    expected: old(self).txs.next_key,
                    got: tx_number,
                },
            ),
            tx_number == old(self).txs.next_key && tx_number == u64::MAX ==> r
                == Err::<(), ImportError>(ImportError::CursorOverflow {
                segment: old(self).txs.kind,
            }),
    {
        self.txs.append(tx_number)
    }

    /// Finalizes `number`'s receipt range; required once per block,
    /// in block order.
    pub fn increment_block(&mut self, number: u64) -> (r: Result<(), ImportError>)
        ensures
            r is Ok <==> (number == old(self).next_block && number < u64::MAX),
            r is Ok ==> *final(self) == (ReceiptWriter { next_block: (number + 1) as u64, ..*old(self) }),
            r is Err ==> *final(self) == *old(self),
            number != old(self).next_block ==> r == Err::<(), ImportError>(
                ImportError::ReceiptBlockOrdering { expected: old(self).next_block, got: number },
            ),
            number == old(self).next_block && number == u64::MAX ==> r == Err::<(), ImportError>(
                ImportError::CursorOverflow { segment: SegmentKind::Receipts },
            ),
    {
        if number != self.next_block {
            Err(ImportError::ReceiptBlockOrdering { expected: self.next_block, got: number })
        } else if number == u64::MAX {
            Err(ImportError::CursorOverflow { segment: SegmentKind::Receipts })
        } else {
            self.next_block = number + 1;
            Ok(())
        }
    }
}

} // verus!

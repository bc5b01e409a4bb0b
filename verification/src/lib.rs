//! Archive import pipeline for a segmented block store.
//!
//! The library replays an append-only historical archive of blocks
//! (header, body and receipts per block, grouped into archive files)
//! into a durable, segmented store that can be read back by block
//! number. It covers the ordered append into per-kind storage
//! segments, the running accumulation of cross-block state (total
//! difficulty and a hash-to-height index), and the checkpoint/commit
//! protocol that makes the whole process resumable after a crash.

pub mod block;
pub mod collector;
pub mod cursor;
pub mod error;
pub mod laws;
pub mod pipeline;
pub mod segment;
pub mod snapshot;
pub mod store;
pub mod u256;

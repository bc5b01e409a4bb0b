//! Plain-value views of decoded chain data.
//!
//! The decoder hands the pipeline one [`DecodedBlock`] per block
//! tuple: everything the import logic reads of a block, as plain
//! values.

use vstd::prelude::*;

use crate::u256::U256;

verus! {

/// A block hash digest, stored as four 64-bit words.
#[derive(Clone, Copy, Debug, PartialEq, Eq, Structural)]
pub struct BlockHash {
    pub w0: u64,
    pub w1: u64,
    pub w2: u64,
    pub w3: u64,
}

impl BlockHash {
    /// A hash from one word, the rest zero; handy for tests.
    pub fn from_u64(w: u64) -> (r: BlockHash)
        ensures
            r == (BlockHash { w0: w, w1: 0, w2: 0, w3: 0 }),
    {
        BlockHash { w0: w, w1: 0, w2: 0, w3: 0 }
    }
}

/// What the pipeline reads of one transaction receipt.
#[derive(Clone, Copy, Debug, PartialEq, Eq, Structural)]
pub struct Receipt {
    /// Whether the transaction succeeded.
    pub success: bool,
    /// Gas used by the block up to and including this transaction.
    pub cumulative_gas_used: u64,
}

/// One decoded block tuple: the header fields the pipeline reads, the
/// body's transaction count, and the block's receipts.
#[derive(Clone, Debug, PartialEq, Eq)]
pub struct DecodedBlock {
    /// The header's block number.
    pub number: u64,
    /// The header's hash, computed once by the decoder.
    pub hash: BlockHash,
    /// The header's difficulty.
    pub difficulty: U256,
    /// How many transactions the body carries.
    pub tx_count: u64,
    /// One receipt per transaction of the body.
    pub receipts: Vec<Receipt>,
}

} // verus!

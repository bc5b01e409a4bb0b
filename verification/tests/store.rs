use gnosis_era::block::{BlockHash, Receipt};
use gnosis_era::error::ImportError;
use gnosis_era::store::{Batch, BodyEntry, Checkpoint, HashIndexEntry, HeaderEntry, Store};
use gnosis_era::u256::U256;

fn entry(n: u64) -> HeaderEntry {
    HeaderEntry {
        hash: BlockHash::from_u64(n),
        difficulty: U256::from_u64(1),
        total_difficulty: U256::from_u64(n + 1),
    }
}

fn one_block_batch() -> Batch {
    Batch {
        first_header: 1,
        first_receipt: 0,
        headers: vec![entry(1)],
        bodies: vec![BodyEntry { first_tx: 0, tx_count: 1 }],
        receipts: vec![Receipt { success: true, cumulative_gas_used: 21000 }],
        checkpoint: Checkpoint { stage_id: 1, processed_through: 1 },
    }
}

#[test]
fn genesis_store_reads_back() {
    let s = Store::with_genesis(BlockHash::from_u64(7), U256::from_u64(3));
    assert_eq!(s.header_count(), 1);
    assert_eq!(s.highest_block(), Some(0));
    assert_eq!(s.total_difficulty_at(0), Some(U256::from_u64(3)));
    assert_eq!(s.total_difficulty_at(1), None);
    assert_eq!(s.block_body_index(0), Some(BodyEntry { first_tx: 0, tx_count: 0 }));
    assert_eq!(s.checkpoint(), None);
}

#[test]
fn commit_appends_all_segments_and_checkpoint() {
    let mut s = Store::with_genesis(BlockHash::from_u64(0), U256::from_u64(0));
    assert_eq!(s.commit(one_block_batch()), Ok(()));
    assert_eq!(s.header_count(), 2);
    assert_eq!(s.receipt_count(), 1);
    assert_eq!(s.header(1), Some(entry(1)));
    assert_eq!(s.receipt(0), Some(Receipt { success: true, cumulative_gas_used: 21000 }));
    assert_eq!(s.checkpoint(), Some(Checkpoint { stage_id: 1, processed_through: 1 }));
}

#[test]
fn stale_batch_is_refused_unchanged() {
    let mut s = Store::new();
    let before = s.clone();
    // the batch claims to sit on top of one header, the store has none
    assert_eq!(
        s.commit(one_block_batch()),
        Err(ImportError::StaleBatch { expected: 0, got: 1 })
    );
    assert_eq!(s, before);
}

#[test]
fn checkpoint_never_rewinds() {
    let mut s = Store::with_genesis(BlockHash::from_u64(0), U256::from_u64(0));
    assert_eq!(s.commit(one_block_batch()), Ok(()));
    let rewound = Batch {
        first_header: 2,
        first_receipt: 1,
        headers: vec![],
        bodies: vec![],
        receipts: vec![],
        checkpoint: Checkpoint { stage_id: 1, processed_through: 0 },
    };
    let before = s.clone();
    assert_eq!(s.commit(rewound), Err(ImportError::CheckpointRewound { have: 1, new: 0 }));
    assert_eq!(s, before);
}

#[test]
fn failed_checkpoint_write_leaves_no_trace() {
    // atomic commit: when the checkpoint write fails, the paired
    // segment data must not be visible afterwards
    let mut s = Store::with_genesis(BlockHash::from_u64(0), U256::from_u64(0));
    s.set_checkpoint_failure(true);
    let before_headers = s.header_count();
    let before_receipts = s.receipt_count();
    let before_checkpoint = s.checkpoint();
    assert_eq!(s.commit(one_block_batch()), Err(ImportError::CheckpointWriteFailed));
    // simulate re-opening the store and inspecting it
    let reopened = s.clone();
    assert_eq!(reopened.header_count(), before_headers);
    assert_eq!(reopened.receipt_count(), before_receipts);
    assert_eq!(reopened.checkpoint(), before_checkpoint);
    assert_eq!(reopened.header(1), None);
    assert_eq!(reopened.receipt(0), None);
    // once the fault is cleared the very same batch commits
    let mut s = reopened;
    s.set_checkpoint_failure(false);
    assert_eq!(s.commit(one_block_batch()), Ok(()));
    assert_eq!(s.header_count(), 2);
}

#[test]
fn hash_index_lookup_finds_committed_entries() {
    let mut s = Store::with_genesis(BlockHash::from_u64(9), U256::from_u64(0));
    s.commit_hash_index(vec![HashIndexEntry { hash: BlockHash::from_u64(9), number: 0 }]);
    assert_eq!(s.hash_index_len(), 1);
    assert_eq!(s.block_number_by_hash(&BlockHash::from_u64(9)), Some(0));
    assert_eq!(s.block_number_by_hash(&BlockHash::from_u64(8)), None);
}

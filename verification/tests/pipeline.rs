use gnosis_era::block::{BlockHash, DecodedBlock, Receipt};
use gnosis_era::cursor::ImportCursor;
use gnosis_era::error::{ImportError, SegmentKind};
use gnosis_era::pipeline::{batch_bounds, import, Importer};
use gnosis_era::store::{Checkpoint, Store};
use gnosis_era::u256::U256;

/// A block with `tx_count` transactions and one receipt per
/// transaction; the hash is derived from the number so every block's
/// hash is distinct.
fn block(number: u64, difficulty: u64, tx_count: u64) -> DecodedBlock {
    let receipts = (0..tx_count)
        .map(|i| Receipt { success: true, cumulative_gas_used: 21000 * (i + 1) })
        .collect();
    DecodedBlock {
        number,
        hash: BlockHash::from_u64(number + 1000),
        difficulty: U256::from_u64(difficulty),
        tx_count,
        receipts,
    }
}

fn blocks(range: std::ops::RangeInclusive<u64>, difficulty: u64, tx_count: u64) -> Vec<DecodedBlock> {
    range.map(|n| block(n, difficulty, tx_count)).collect()
}

fn genesis_store() -> Store {
    Store::with_genesis(BlockHash::from_u64(1000), U256::from_u64(5))
}

#[test]
fn import_accumulates_difficulty_and_height() {
    // six blocks with known difficulties over a genesis of difficulty 5
    let mut store = genesis_store();
    let archives = vec![
        vec![block(1, 10, 0), block(2, 20, 1), block(3, 30, 2)],
        vec![block(4, 40, 0), block(5, 50, 1), block(6, 60, 3)],
    ];
    let height = import(&mut store, &archives, 8192, None).expect("import");
    assert_eq!(height, 6);
    assert_eq!(store.header_count(), 7);
    // total difficulty is the genesis difficulty plus the sum of the
    // per-block difficulties 10..=60
    assert_eq!(store.total_difficulty_at(6), Some(U256::from_u64(5 + 210)));
    // intermediate totals chain block by block
    assert_eq!(store.total_difficulty_at(2), Some(U256::from_u64(5 + 30)));
    // bodies carry contiguous receipt ranges and the receipts landed
    assert_eq!(store.block_body_index(3).map(|b| (b.first_tx, b.tx_count)), Some((1, 2)));
    assert_eq!(store.receipt_count(), 7);
    assert_eq!(store.receipt(0), Some(Receipt { success: true, cumulative_gas_used: 21000 }));
}

#[test]
fn hash_index_is_complete_after_a_full_run() {
    // after a full run over six blocks the index holds exactly six
    // entries, each hash mapping to its block number
    let mut store = genesis_store();
    let archives = vec![
        vec![block(1, 1, 0), block(2, 1, 0), block(3, 1, 0)],
        vec![block(4, 1, 0), block(5, 1, 0), block(6, 1, 0)],
    ];
    import(&mut store, &archives, 8192, None).expect("import");
    assert_eq!(store.hash_index_len(), 6);
    for n in 1..=6u64 {
        assert_eq!(store.block_number_by_hash(&BlockHash::from_u64(n + 1000)), Some(n));
        // entries land in block order, one per imported block
        let entry = store.hash_index_entry(n - 1).expect("index entry");
        assert_eq!(entry.number, n);
        assert_eq!(entry.hash, BlockHash::from_u64(n + 1000));
    }
    assert_eq!(store.hash_index_entry(6), None);
    assert_eq!(store.block_number_by_hash(&BlockHash::from_u64(1007)), None);
}

#[test]
fn bounded_batches_clamp_at_the_ceiling() {
    // STEP = 4 and a caller maximum of 10 from height 0: exactly three
    // batches, [0,4], [4,8] and the clamped [8,10], then a clean stop
    assert_eq!(batch_bounds(0, 4, Some(10)), (4, false));
    assert_eq!(batch_bounds(4, 4, Some(10)), (8, false));
    assert_eq!(batch_bounds(8, 4, Some(10)), (10, true));
    assert_eq!(batch_bounds(u64::MAX - 2, 4, None), (u64::MAX, false));

    let mut store = genesis_store();
    let mut importer = Importer::begin(&store, 4, Some(10)).expect("begin");
    // batch [0,4]
    assert_eq!(importer.on_archive(&mut store, &blocks(1..=4, 1, 0)), Ok(true));
    assert_eq!(store.checkpoint(), Some(Checkpoint { stage_id: 1, processed_through: 4 }));
    // batch [4,8]
    assert_eq!(importer.on_archive(&mut store, &blocks(5..=8, 1, 0)), Ok(true));
    assert_eq!(store.checkpoint(), Some(Checkpoint { stage_id: 1, processed_through: 8 }));
    // clamped batch [8,10]: blocks 11 and 12 stay out, the run stops
    assert_eq!(importer.on_archive(&mut store, &blocks(9..=12, 1, 0)), Ok(false));
    assert_eq!(store.checkpoint(), Some(Checkpoint { stage_id: 1, processed_through: 10 }));
    // a fourth archive is left untouched
    let before = store.clone();
    assert_eq!(importer.on_archive(&mut store, &blocks(13..=16, 1, 0)), Ok(false));
    assert_eq!(store, before);
    let height = importer.finish(&mut store);
    assert_eq!(height, 10);
    assert_eq!(store.header_count(), 11);
}

#[test]
fn resume_after_a_stop_matches_one_uninterrupted_run() {
    // the same archive set, imported once in full and once in two
    // invocations stopped between batches, ends in the same store
    let archives = vec![
        blocks(1..=3, 7, 1),
        blocks(4..=6, 9, 2),
        blocks(7..=9, 11, 0),
    ];

    let mut once = genesis_store();
    let h_once = import(&mut once, &archives, 3, None).expect("uninterrupted run");

    let mut twice = genesis_store();
    let prefix = vec![archives[0].clone()];
    let h_first = import(&mut twice, &prefix, 3, None).expect("first run");
    assert_eq!(h_first, 3);
    let h_second = import(&mut twice, &archives, 3, None).expect("resumed run");

    assert_eq!(h_once, h_second);
    assert_eq!(once, twice);
}

#[test]
fn rerunning_a_fully_imported_set_changes_nothing() {
    let archives = vec![blocks(1..=4, 2, 1), blocks(5..=8, 3, 0)];
    let mut store = genesis_store();
    import(&mut store, &archives, 4, None).expect("first run");
    let before = store.clone();
    let height = import(&mut store, &archives, 4, None).expect("second run");
    assert_eq!(height, 8);
    assert_eq!(store, before);
}

#[test]
fn a_gap_in_block_numbers_is_a_fatal_ordering_error() {
    let mut store = genesis_store();
    let archives = vec![vec![block(1, 1, 0), block(3, 1, 0)]];
    let before = store.clone();
    assert_eq!(
        import(&mut store, &archives, 8192, None),
        Err(ImportError::SegmentOrdering { segment: SegmentKind::Headers, expected: 2, got: 3 })
    );
    // the failed batch was aborted before any commit
    assert_eq!(store, before);
}

#[test]
fn a_receipt_count_mismatch_surfaces_at_the_next_block() {
    // block 1 claims two transactions but carries one receipt; its own
    // appends go through, and the receipts segment falls out of step
    // when block 2's receipts arrive
    let mut store = genesis_store();
    let mut short = block(1, 1, 2);
    short.receipts.pop();
    let archives = vec![vec![short, block(2, 1, 1)]];
    assert_eq!(
        import(&mut store, &archives, 8192, None),
        Err(ImportError::SegmentOrdering { segment: SegmentKind::Receipts, expected: 1, got: 2 })
    );
}

#[test]
fn checkpoint_failure_aborts_the_batch_without_partial_state() {
    let mut store = genesis_store();
    store.set_checkpoint_failure(true);
    let before = store.clone();
    let archives = vec![blocks(1..=3, 1, 0)];
    assert_eq!(
        import(&mut store, &archives, 8192, None),
        Err(ImportError::CheckpointWriteFailed)
    );
    assert_eq!(store, before);
}

#[test]
fn an_empty_store_has_no_genesis_to_build_on() {
    // the pipeline skips block 0 by design, so a store without its
    // genesis block refuses the first append
    let mut store = Store::new();
    let archives = vec![vec![block(1, 1, 0)]];
    assert_eq!(
        import(&mut store, &archives, 8192, None),
        Err(ImportError::SegmentOrdering { segment: SegmentKind::Headers, expected: 0, got: 1 })
    );
}

#[test]
fn cursor_seeding_covers_all_store_readings() {
    assert_eq!(
        ImportCursor::seed(None, None),
        Ok(ImportCursor { height: 0, total_difficulty: U256::zero() })
    );
    assert_eq!(
        ImportCursor::seed(Some(9), Some(U256::from_u64(14))),
        Ok(ImportCursor { height: 9, total_difficulty: U256::from_u64(14) })
    );
    assert_eq!(
        ImportCursor::seed(Some(9), None),
        Err(ImportError::TotalDifficultyNotFound { height: 9 })
    );
}

#[test]
fn overlapping_archives_are_skipped_at_block_granularity() {
    // the second archive re-delivers blocks 2..=4; only 5 and 6 are new
    let mut store = genesis_store();
    let archives = vec![blocks(1..=4, 1, 1), blocks(2..=6, 1, 1)];
    let height = import(&mut store, &archives, 8192, None).expect("import");
    assert_eq!(height, 6);
    assert_eq!(store.header_count(), 7);
    assert_eq!(store.receipt_count(), 6);
    assert_eq!(store.hash_index_len(), 6);
}

#[test]
fn total_difficulty_overflow_is_fatal() {
    // a genesis already at the top of the 256-bit range cannot absorb
    // one more unit of difficulty
    let mut store = Store::with_genesis(
        BlockHash::from_u64(0),
        U256 { lo: u128::MAX, hi: u128::MAX },
    );
    let archives = vec![vec![block(1, 1, 0)]];
    assert_eq!(
        import(&mut store, &archives, 8192, None),
        Err(ImportError::TotalDifficultyOverflow { number: 1 })
    );
}

#[test]
fn tx_number_overflow_is_fatal() {
    // block 1 records the whole transaction key space; block 2's body
    // cannot chain past it
    let mut store = genesis_store();
    let mut first = block(1, 1, 0);
    first.tx_count = u64::MAX;
    let archives = vec![vec![first, block(2, 1, 1)]];
    assert_eq!(
        import(&mut store, &archives, 8192, None),
        Err(ImportError::TxNumberOverflow { number: 2 })
    );
}

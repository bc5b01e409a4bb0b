//! Cross-cutting guarantees of the import pipeline, stated and proved
//! over the run model that [`crate::pipeline::import`] is specified
//! against.

use vstd::prelude::*;

use crate::block::DecodedBlock;
use crate::cursor::ImportCursor;
use crate::pipeline::{
    batch_end, cursor_matches, drain, drain_one, init_drain_state, lemma_batch_commit_inv,
    lemma_drain_absorbed, lemma_drain_monotonic, lemma_run_batches_absorbed,
    lemma_run_batches_concat, run_batches, run_import, run_one, start_state, store_highest,
    store_seed_td, DrainState, RunState, ERA_STAGE_ID,
};
use crate::store::{
    committed, count_height, index_consistent, td_linked, Checkpoint, HashIndexEntry, HeaderEntry,
    StoreModel,
};

verus! {

/// Sum of the per-block difficulties of a header run.
pub open spec fn sum_difficulty(headers: Seq<HeaderEntry>) -> int
    decreases headers.len(),
{
    if headers.len() == 0 {
        0
    } else {
        sum_difficulty(headers.drop_last()) + headers.last().difficulty.as_int()
    }
}

/// Difficulty sums add up across concatenated header runs.
pub proof fn lemma_sum_difficulty_concat(a: Seq<HeaderEntry>, b: Seq<HeaderEntry>)
    ensures
        sum_difficulty(a + b) == sum_difficulty(a) + sum_difficulty(b),
    decreases b.len(),
{
    if b.len() == 0 {
        assert(a + b =~= a);
    } else {
        lemma_sum_difficulty_concat(a, b.drop_last());
        assert((a + b).drop_last() =~= a + b.drop_last());
        assert((a + b).last() == b.last());
    }
}

/// In a chained header run the recorded total difficulty at the top is
/// the base plus the sum of every block's own difficulty.
pub proof fn lemma_td_linked_sum(base: int, headers: Seq<HeaderEntry>)
    requires
        td_linked(base, headers),
    ensures
        headers.len() > 0 ==> headers.last().total_difficulty.as_int() == base + sum_difficulty(
            headers,
        ),
    decreases headers.len(),
{
    if headers.len() > 0 {
        let prefix = headers.drop_last();
        assert(td_linked(base, prefix)) by {
            assert forall|i: int| 0 <= i < prefix.len() implies (
            #[trigger] prefix[i]).total_difficulty.as_int() == (
            if i == 0 {
                base
            } else {
                prefix[i - 1].total_difficulty.as_int()
            }) + prefix[i].difficulty.as_int() by {
                assert(prefix[i] == headers[i]);
                if i > 0 {
                    assert(prefix[i - 1] == headers[i - 1]);
                }
            }
        }
        lemma_td_linked_sum(base, prefix);
        let n = headers.len() as int;
        assert(headers[n - 1] == headers.last());
        assert(headers[n - 1].total_difficulty.as_int() == (if n - 1 == 0 {
            base
        } else {
            headers[n - 2].total_difficulty.as_int()
        }) + headers[n - 1].difficulty.as_int());
        assert(headers.drop_last() == prefix);
        assert(sum_difficulty(headers) == sum_difficulty(prefix)
            + headers.last().difficulty.as_int());
        if n == 1 {
            assert(sum_difficulty(prefix) == 0);
        } else {
            assert(headers[n - 2] == prefix.last());
            assert(prefix.last().total_difficulty.as_int() == base + sum_difficulty(prefix));
        }
        assert(headers.last().total_difficulty.as_int() == base + sum_difficulty(headers));
    }
}

/// The footing an import run keeps, batch after batch, relative to the
/// store state `m0` it started from: the store stays well-formed and
/// only grows, the cursor tracks its top, and exactly one hash entry
/// has been collected per newly appended block.
pub open spec fn run_inv(rs: RunState, m0: StoreModel) -> bool {
    &&& rs.store.wf()
    &&& cursor_matches(rs.cursor, rs.store)
    &&& index_consistent(rs.store.hash_index + rs.collected, rs.store.headers)
    &&& rs.store.hash_index == m0.hash_index
    &&& rs.store.headers.len() == m0.headers.len() + rs.collected.len()
    &&& rs.store.headers.take(m0.headers.len() as int) == m0.headers
}

/// One batch keeps the run's footing and never lowers the height.
pub proof fn lemma_run_one_inv(
    rs: RunState,
    blocks: Seq<DecodedBlock>,
    step: u64,
    max_height: Option<u64>,
    m0: StoreModel,
)
    requires
        run_inv(rs, m0),
        rs.error is None,
    ensures
        ({
            let rs1 = run_one(rs, blocks, step, max_height);
            rs1.error is None ==> run_inv(rs1, m0)
        }),
{
    let rs1 = run_one(rs, blocks, step, max_height);
    if !rs.stopped {
        let end = batch_end(rs.cursor.height, step, max_height);
        let fin = drain(init_drain_state(rs.store, rs.cursor), blocks, end);
        if fin.error is None {
            lemma_batch_commit_inv(rs.store, rs.cursor, rs.collected, blocks, end);
            if !rs.store.fail_checkpoint_writes {
                let cp = Checkpoint { stage_id: ERA_STAGE_ID, processed_through: fin.last };
                let m1 = committed(rs.store, fin.headers, fin.bodies, fin.receipts, cp);
                assert(m1.headers.take(m0.headers.len() as int) =~= rs.store.headers.take(
                    m0.headers.len() as int,
                ));
            }
        }
    }
}

/// A whole archive set keeps the run's footing.
pub proof fn lemma_run_batches_inv(
    rs: RunState,
    archives: Seq<Vec<DecodedBlock>>,
    step: u64,
    max_height: Option<u64>,
    m0: StoreModel,
)
    requires
        run_inv(rs, m0),
        rs.error is None,
    ensures
        ({
            let out = run_batches(rs, archives, step, max_height);
            out.error is None ==> run_inv(out, m0)
        }),
    decreases archives.len(),
{
    if archives.len() > 0 {
        let rs1 = run_one(rs, archives[0]@, step, max_height);
        lemma_run_one_inv(rs, archives[0]@, step, max_height, m0);
        if rs1.error is None {
            lemma_run_batches_inv(rs1, archives.drop_first(), step, max_height, m0);
        } else {
            lemma_run_batches_absorbed(rs1, archives.drop_first(), step, max_height);
        }
    }
}

/// Monotonic height: one batch never lowers the cursor's height,
/// whether it succeeds, skips everything, stops at the ceiling, or
/// fails.
pub proof fn lemma_monotonic_height(
    rs: RunState,
    blocks: Seq<DecodedBlock>,
    step: u64,
    max_height: Option<u64>,
)
    ensures
        run_one(rs, blocks, step, max_height).cursor.height >= rs.cursor.height,
{
    if rs.error is None && !rs.stopped {
        let end = batch_end(rs.cursor.height, step, max_height);
        lemma_drain_monotonic(init_drain_state(rs.store, rs.cursor), blocks, end);
    }
}

/// Monotonic height over a whole run: after any number of batches the
/// cursor stands at least as high as where it started.
pub proof fn lemma_monotonic_height_run(
    rs: RunState,
    archives: Seq<Vec<DecodedBlock>>,
    step: u64,
    max_height: Option<u64>,
)
    ensures
        run_batches(rs, archives, step, max_height).cursor.height >= rs.cursor.height,
    decreases archives.len(),
{
    if archives.len() > 0 {
        lemma_monotonic_height(rs, archives[0]@, step, max_height);
        lemma_monotonic_height_run(
            run_one(rs, archives[0]@, step, max_height),
            archives.drop_first(),
            step,
            max_height,
        );
    }
}

/// Total difficulty accumulation: a successful run leaves the cursor's
/// total difficulty equal to the sum of the difficulties of all blocks
/// the store then holds — the pre-existing store's sum plus the
/// difficulties of every newly appended block — and the pre-existing
/// blocks themselves are untouched.
pub proof fn lemma_total_difficulty_accumulation(
    m: StoreModel,
    archives: Seq<Vec<DecodedBlock>>,
    step: u64,
    max_height: Option<u64>,
)
    requires
        m.wf(),
    ensures
        ({
            let out = run_import(m, archives, step, max_height);
            out.error is None ==> {
                &&& out.cursor.total_difficulty.as_int() == sum_difficulty(out.store.headers)
                &&& out.store.headers.take(m.headers.len() as int) == m.headers
                &&& sum_difficulty(out.store.headers) == sum_difficulty(m.headers)
                    + sum_difficulty(out.store.headers.skip(m.headers.len() as int))
            }
        }),
{
    let out = run_import(m, archives, step, max_height);
    if out.error is None {
        let c0 = crate::cursor::seed_outcome(
            crate::pipeline::store_highest(m),
            crate::pipeline::store_seed_td(m),
        )->Ok_0;
        let rs0 = crate::pipeline::start_state(m, c0);
        assert(run_inv(rs0, m)) by {
            assert(m.hash_index + rs0.collected =~= m.hash_index);
            assert(m.headers.take(m.headers.len() as int) =~= m.headers);
        }
        lemma_run_batches_inv(rs0, archives, step, max_height, m);
        let rs = run_batches(rs0, archives, step, max_height);
        assert(run_inv(rs, m));
        assert(out.store.headers == rs.store.headers);
        assert(out.cursor == rs.cursor);
        if rs.store.headers.len() == 0 {
            assert(out.cursor.total_difficulty.as_int() == 0);
        } else {
            lemma_td_linked_sum(0, rs.store.headers);
        }
        assert(out.store.headers.take(m.headers.len() as int) == m.headers);
        assert(out.store.headers =~= out.store.headers.take(m.headers.len() as int)
            + out.store.headers.skip(m.headers.len() as int));
        lemma_sum_difficulty_concat(m.headers, out.store.headers.skip(m.headers.len() as int));
    }
}

/// Hash index completeness: a successful run adds exactly one index
/// entry per newly appended block, and afterwards every entry of the
/// index maps a stored block's recorded hash to its block number, in
/// strictly ascending number order — no block indexed twice.
pub proof fn lemma_hash_index_completeness(
    m: StoreModel,
    archives: Seq<Vec<DecodedBlock>>,
    step: u64,
    max_height: Option<u64>,
)
    requires
        m.wf(),
    ensures
        ({
            let out = run_import(m, archives, step, max_height);
            out.error is None ==> {
                &&& out.store.hash_index.len() == m.hash_index.len() + out.store.headers.len()
                    - m.headers.len()
                &&& index_consistent(out.store.hash_index, out.store.headers)
            }
        }),
{
    let out = run_import(m, archives, step, max_height);
    if out.error is None {
        let c0 = crate::cursor::seed_outcome(
            crate::pipeline::store_highest(m),
            crate::pipeline::store_seed_td(m),
        )->Ok_0;
        let rs0 = crate::pipeline::start_state(m, c0);
        assert(run_inv(rs0, m)) by {
            assert(m.hash_index + rs0.collected =~= m.hash_index);
            assert(m.headers.take(m.headers.len() as int) =~= m.headers);
        }
        lemma_run_batches_inv(rs0, archives, step, max_height, m);
        let rs = run_batches(rs0, archives, step, max_height);
        assert(out.store.hash_index == rs.store.hash_index + rs.collected);
        assert(out.store.headers == rs.store.headers);
    }
}


/// One archive file's blocks, numbered consecutively upward from
/// `start + 1`.
pub open spec fn archive_blocks_chained(blocks: Seq<DecodedBlock>, start: u64) -> bool {
    forall|i: int| 0 <= i < blocks.len() ==> (#[trigger] blocks[i]).number == start + 1 + i
}

/// An archive set in file order: each file's blocks continue exactly
/// where the previous file ended, the first right above `start`, and
/// no file longer than one batch step.
pub open spec fn archives_chained(archives: Seq<Vec<DecodedBlock>>, start: u64, step: u64) -> bool
    decreases archives.len(),
{
    if archives.len() == 0 {
        true
    } else {
        &&& archive_blocks_chained(archives[0]@, start)
        &&& archives[0]@.len() <= step
        &&& start + archives[0]@.len() <= u64::MAX
        &&& archives_chained(
            archives.drop_first(),
            (start + archives[0]@.len()) as u64,
            step,
        )
    }
}

/// The block number a chained archive set ends at.
pub open spec fn chain_end(archives: Seq<Vec<DecodedBlock>>, start: int) -> int
    decreases archives.len(),
{
    if archives.len() == 0 {
        start
    } else {
        chain_end(archives.drop_first(), start + archives[0]@.len())
    }
}

/// A chained archive set never ends below its start, and stays within
/// the key space.
pub proof fn lemma_chain_end_bounds(archives: Seq<Vec<DecodedBlock>>, start: u64, step: u64)
    requires
        archives_chained(archives, start, step),
    ensures
        start <= chain_end(archives, start as int) <= u64::MAX,
    decreases archives.len(),
{
    if archives.len() > 0 {
        lemma_chain_end_bounds(
            archives.drop_first(),
            (start + archives[0]@.len()) as u64,
            step,
        );
    }
}

/// Every prefix of a chained archive set is chained.
pub proof fn lemma_chained_take(
    archives: Seq<Vec<DecodedBlock>>,
    start: u64,
    step: u64,
    k: int,
)
    requires
        archives_chained(archives, start, step),
        0 <= k <= archives.len(),
    ensures
        archives_chained(archives.take(k), start, step),
    decreases k,
{
    if k > 0 {
        assert(archives.take(k)[0] == archives[0]);
        assert(archives.take(k).drop_first() =~= archives.drop_first().take(k - 1));
        lemma_chained_take(
            archives.drop_first(),
            (start + archives[0]@.len()) as u64,
            step,
            k - 1,
        );
    }
}

/// Consecutive in-range blocks drain in full: nothing is skipped,
/// nothing stops the drain, and the height lands exactly one past the
/// last block — provided no step failed.
pub proof fn lemma_drain_consecutive(st: DrainState, blocks: Seq<DecodedBlock>, end: u64)
    requires
        st.error is None,
        !st.stopped,
        archive_blocks_chained(blocks, st.last),
        st.last + blocks.len() <= end,
        drain(st, blocks, end).error is None,
    ensures
        drain(st, blocks, end).last == st.last + blocks.len(),
        !drain(st, blocks, end).stopped,
    decreases blocks.len(),
{
    if blocks.len() > 0 {
        let b = blocks[0];
        assert(b.number == st.last + 1);
        let st1 = drain_one(st, b, end);
        if st1.error is Some {
            lemma_drain_absorbed(st1, blocks.drop_first(), end);
        }
        assert(st1.last == st.last + 1);
        assert(archive_blocks_chained(blocks.drop_first(), st1.last)) by {
            assert forall|i: int| 0 <= i < blocks.drop_first().len() implies (
            #[trigger] blocks.drop_first()[i]).number == st1.last + 1 + i by {
                assert(blocks.drop_first()[i] == blocks[i + 1]);
            }
        }
        lemma_drain_consecutive(st1, blocks.drop_first(), end);
    }
}

/// Blocks at or below the oracle are skipped wholesale: the drain
/// changes nothing at all.
pub proof fn lemma_drain_all_skipped(st: DrainState, blocks: Seq<DecodedBlock>, end: u64)
    requires
        st.error is None,
        !st.stopped,
        st.last <= end,
        forall|i: int| 0 <= i < blocks.len() ==> (#[trigger] blocks[i]).number <= st.last,
    ensures
        drain(st, blocks, end) == st,
    decreases blocks.len(),
{
    if blocks.len() > 0 {
        assert(blocks[0].number <= st.last);
        assert(drain_one(st, blocks[0], end) == st);
        assert(forall|i: int|
            0 <= i < blocks.drop_first().len() ==> (#[trigger] blocks.drop_first()[i]).number
                <= st.last) by {
            assert(forall|i: int|
                0 <= i < blocks.drop_first().len() ==> blocks.drop_first()[i] == blocks[i + 1]);
        }
        lemma_drain_all_skipped(st, blocks.drop_first(), end);
    }
}


/// An error-free run over a chained archive set lands exactly at the
/// set's end: nothing is skipped and the ceiling never cuts in
/// (there is none). Afterwards the checkpoint names that height and
/// checkpoint writes are known not to be failing.
pub proof fn lemma_chained_run_heights(rs: RunState, archives: Seq<Vec<DecodedBlock>>, step: u64)
    requires
        rs.error is None,
        !rs.stopped,
        archives_chained(archives, rs.cursor.height, step),
        run_batches(rs, archives, step, None).error is None,
    ensures
        ({
            let out = run_batches(rs, archives, step, None);
            &&& out.cursor.height == chain_end(archives, rs.cursor.height as int)
            &&& !out.stopped
            &&& (archives.len() > 0 ==> out.store.checkpoint == Some(
                Checkpoint { stage_id: ERA_STAGE_ID, processed_through: out.cursor.height },
            ) && !out.store.fail_checkpoint_writes)
        }),
    decreases archives.len(),
{
    if archives.len() > 0 {
        let rs1 = run_one(rs, archives[0]@, step, None);
        if rs1.error is Some {
            lemma_run_batches_absorbed(rs1, archives.drop_first(), step, None);
        } else {
            let end = batch_end(rs.cursor.height, step, None);
            let init = init_drain_state(rs.store, rs.cursor);
            let fin = drain(init, archives[0]@, end);
            assert(fin.error is None);
            lemma_drain_consecutive(init, archives[0]@, end);
            assert(rs1.cursor.height == rs.cursor.height + archives[0]@.len());
            assert(!rs1.stopped);
            assert(rs1.store.checkpoint == Some(
                Checkpoint { stage_id: ERA_STAGE_ID, processed_through: rs1.cursor.height },
            ));
            assert(!rs1.store.fail_checkpoint_writes);
            lemma_chained_run_heights(rs1, archives.drop_first(), step);
            if archives.drop_first().len() == 0 {
                assert(run_batches(rs1, archives.drop_first(), step, None) == rs1);
            }
        }
    }
}

/// Re-running over archives the store already holds in full changes
/// nothing: every block is skipped, the empty batch is committed over
/// an identical checkpoint, and the state comes back as it was.
pub proof fn lemma_resume_prefix(
    rs: RunState,
    archives: Seq<Vec<DecodedBlock>>,
    step: u64,
    start: u64,
)
    requires
        rs.error is None,
        !rs.stopped,
        rs.store.headers.len() <= u64::MAX,
        rs.store.receipts.len() <= u64::MAX,
        !rs.store.fail_checkpoint_writes,
        rs.store.checkpoint == Some(
            Checkpoint { stage_id: ERA_STAGE_ID, processed_through: rs.cursor.height },
        ),
        archives_chained(archives, start, step),
        chain_end(archives, start as int) <= rs.cursor.height,
        start <= rs.cursor.height,
    ensures
        run_batches(rs, archives, step, None) == rs,
    decreases archives.len(),
{
    if archives.len() > 0 {
        let end = batch_end(rs.cursor.height, step, None);
        let init = init_drain_state(rs.store, rs.cursor);
        let next_start = (start + archives[0]@.len()) as u64;
        lemma_chain_end_bounds(archives.drop_first(), next_start, step);
        assert(forall|i: int|
            0 <= i < archives[0]@.len() ==> (#[trigger] archives[0]@[i]).number <= rs.cursor.height);
        lemma_drain_all_skipped(init, archives[0]@, end);
        let fin = drain(init, archives[0]@, end);
        assert(fin == init);
        let rs1 = run_one(rs, archives[0]@, step, None);
        let cp = Checkpoint { stage_id: ERA_STAGE_ID, processed_through: fin.last };
        assert(rs1.store =~= rs.store) by {
            assert(rs.store.headers + fin.headers =~= rs.store.headers);
            assert(rs.store.bodies + fin.bodies =~= rs.store.bodies);
            assert(rs.store.receipts + fin.receipts =~= rs.store.receipts);
            assert(Some(cp) == rs.store.checkpoint);
        }
        assert(rs1.collected =~= rs.collected) by {
            assert(rs.collected + fin.collected =~= rs.collected);
        }
        assert(rs1.cursor =~= rs.cursor);
        assert(rs1 =~= rs);
        lemma_resume_prefix(rs, archives.drop_first(), step, next_start);
    }
}

/// A run that ends without an error had no error in any prefix.
pub proof fn lemma_prefix_error_free(
    rs: RunState,
    archives: Seq<Vec<DecodedBlock>>,
    k: int,
    step: u64,
    max_height: Option<u64>,
)
    requires
        0 <= k <= archives.len(),
        run_batches(rs, archives, step, max_height).error is None,
    ensures
        run_batches(rs, archives.take(k), step, max_height).error is None,
{
    let rsk = run_batches(rs, archives.take(k), step, max_height);
    lemma_run_batches_concat(rs, archives.take(k), archives.skip(k), step, max_height);
    assert(archives.take(k) + archives.skip(k) =~= archives);
    if rsk.error is Some {
        lemma_run_batches_absorbed(rsk, archives.skip(k), step, max_height);
    }
}

/// Two run states that differ only in hash-index entries already
/// flushed to one of the stores: the pipeline never reads those, so
/// the runs move in lockstep.
pub open spec fn run_similar(a: RunState, b: RunState, extra: Seq<HashIndexEntry>) -> bool {
    &&& b.store == (StoreModel { hash_index: a.store.hash_index + extra, ..a.store })
    &&& b.cursor == a.cursor
    &&& a.collected == extra + b.collected
    &&& b.stopped == a.stopped
    &&& b.error == a.error
}

/// One batch preserves similarity.
pub proof fn lemma_run_one_similar(
    a: RunState,
    b: RunState,
    extra: Seq<HashIndexEntry>,
    blocks: Seq<DecodedBlock>,
    step: u64,
    max_height: Option<u64>,
)
    requires
        run_similar(a, b, extra),
    ensures
        run_similar(
            run_one(a, blocks, step, max_height),
            run_one(b, blocks, step, max_height),
            extra,
        ),
{
    if a.error is None && !a.stopped {
        assert(init_drain_state(b.store, b.cursor) == init_drain_state(a.store, a.cursor));
        let end = batch_end(a.cursor.height, step, max_height);
        let fin = drain(init_drain_state(a.store, a.cursor), blocks, end);
        if fin.error is None {
            let cp = Checkpoint { stage_id: ERA_STAGE_ID, processed_through: fin.last };
            let a1 = run_one(a, blocks, step, max_height);
            let b1 = run_one(b, blocks, step, max_height);
            if !a.store.fail_checkpoint_writes {
                assert(b1.store == (StoreModel {
                    hash_index: a1.store.hash_index + extra,
                    ..a1.store
                }));
                assert(a1.collected =~= extra + b1.collected) by {
                    assert((extra + b.collected) + fin.collected =~= extra + (b.collected
                        + fin.collected));
                }
            }
        }
    }
}

/// A whole archive set preserves similarity.
pub proof fn lemma_run_batches_similar(
    a: RunState,
    b: RunState,
    extra: Seq<HashIndexEntry>,
    archives: Seq<Vec<DecodedBlock>>,
    step: u64,
    max_height: Option<u64>,
)
    requires
        run_similar(a, b, extra),
    ensures
        run_similar(
            run_batches(a, archives, step, max_height),
            run_batches(b, archives, step, max_height),
            extra,
        ),
    decreases archives.len(),
{
    if archives.len() > 0 {
        lemma_run_one_similar(a, b, extra, archives[0]@, step, max_height);
        lemma_run_batches_similar(
            run_one(a, archives[0]@, step, max_height),
            run_one(b, archives[0]@, step, max_height),
            extra,
            archives.drop_first(),
            step,
            max_height,
        );
    }
}


/// The resumed half of an interrupted run: re-seeded from the store
/// the stopped run left (with its collected entries flushed), the
/// resumed run skips the already-imported prefix and then moves in
/// lockstep with the uninterrupted one.
#[verifier::rlimit(100)]
proof fn lemma_resume_from(
    rsk: RunState,
    archives: Seq<Vec<DecodedBlock>>,
    k: int,
    step: u64,
    start: u64,
)
    requires
        0 < k <= archives.len(),
        rsk.error is None,
        !rsk.stopped,
        rsk.store.headers.len() <= u64::MAX,
        rsk.store.receipts.len() <= u64::MAX,
        !rsk.store.fail_checkpoint_writes,
        rsk.store.checkpoint == Some(
            Checkpoint { stage_id: ERA_STAGE_ID, processed_through: rsk.cursor.height },
        ),
        cursor_matches(rsk.cursor, rsk.store),
        archives_chained(archives.take(k), start, step),
        chain_end(archives.take(k), start as int) <= rsk.cursor.height,
        start <= rsk.cursor.height,
    ensures
        ({
            let first_store = StoreModel {
                hash_index: rsk.store.hash_index + rsk.collected,
                ..rsk.store
            };
            let resumed = run_import(first_store, archives, step, None);
            let rsn = run_batches(rsk, archives.skip(k), step, None);
            rsn.error is None ==> {
                &&& resumed.error is None
                &&& resumed.store == (StoreModel {
                    hash_index: rsn.store.hash_index + rsn.collected,
                    ..rsn.store
                })
                &&& resumed.cursor == rsn.cursor
            }
        }),
{
    let first_store = StoreModel { hash_index: rsk.store.hash_index + rsk.collected, ..rsk.store };
    let rsn = run_batches(rsk, archives.skip(k), step, None);
    if rsn.error is None {
        let seeded1 = crate::cursor::seed_outcome(
            store_highest(first_store),
            store_seed_td(first_store),
        );
        assert(store_highest(first_store) == store_highest(rsk.store));
        assert(store_seed_td(first_store) == store_seed_td(rsk.store));
        assert(seeded1 == Ok::<ImportCursor, crate::error::ImportError>(rsk.cursor));
        let rs0p = start_state(first_store, rsk.cursor);
        lemma_run_batches_concat(rs0p, archives.take(k), archives.skip(k), step, None);
        assert(archives.take(k) + archives.skip(k) =~= archives);
        lemma_resume_prefix(rs0p, archives.take(k), step, start);
        assert(run_batches(rs0p, archives, step, None) == run_batches(
            rs0p,
            archives.skip(k),
            step,
            None,
        ));
        assert(run_similar(rsk, rs0p, rsk.collected)) by {
            assert(rsk.collected =~= rsk.collected + rs0p.collected);
        }
        lemma_run_batches_similar(rsk, rs0p, rsk.collected, archives.skip(k), step, None);
        let rsnp = run_batches(rs0p, archives.skip(k), step, None);
        assert(run_similar(rsn, rsnp, rsk.collected));
        let resumed = run_import(first_store, archives, step, None);
        assert(resumed.store =~= (StoreModel {
            hash_index: rsn.store.hash_index + rsn.collected,
            ..rsn.store
        })) by {
            assert((rsn.store.hash_index + rsk.collected) + rsnp.collected
                =~= rsn.store.hash_index + (rsk.collected + rsnp.collected));
            assert(rsk.collected + rsnp.collected == rsn.collected);
        }
    }
}

/// What holds at a clean stop point `k` batches into an error-free
/// chained run: the state is well-formed, unstopped, its checkpoint
/// names its height, and that height is exactly where the first `k`
/// archive files end.
proof fn lemma_stop_point_facts(
    m: StoreModel,
    archives: Seq<Vec<DecodedBlock>>,
    step: u64,
    k: int,
)
    requires
        m.wf(),
        0 < k <= archives.len(),
        ({
            let seeded = crate::cursor::seed_outcome(store_highest(m), store_seed_td(m));
            let rs0 = start_state(m, seeded->Ok_0);
            &&& seeded is Ok
            &&& run_batches(rs0, archives.take(k), step, None).error is None
            &&& archives_chained(
                archives.take(k),
                count_height(m.headers.len() as int) as u64,
                step,
            )
        }),
    ensures
        ({
            let seeded = crate::cursor::seed_outcome(store_highest(m), store_seed_td(m));
            let rs0 = start_state(m, seeded->Ok_0);
            let rsk = run_batches(rs0, archives.take(k), step, None);
            let h0 = count_height(m.headers.len() as int) as u64;
            &&& !rsk.stopped
            &&& rsk.store.wf()
            &&& !rsk.store.fail_checkpoint_writes
            &&& rsk.store.checkpoint == Some(
                Checkpoint { stage_id: ERA_STAGE_ID, processed_through: rsk.cursor.height },
            )
            &&& cursor_matches(rsk.cursor, rsk.store)
            &&& chain_end(archives.take(k), h0 as int) <= rsk.cursor.height
            &&& h0 <= rsk.cursor.height
        }),
{
    let seeded = crate::cursor::seed_outcome(store_highest(m), store_seed_td(m));
    let c0 = seeded->Ok_0;
    let h0 = count_height(m.headers.len() as int) as u64;
    assert(c0.height == h0);
    let rs0 = start_state(m, c0);
    assert(run_inv(rs0, m)) by {
        assert(m.hash_index + rs0.collected =~= m.hash_index);
        assert(m.headers.take(m.headers.len() as int) =~= m.headers);
    }
    lemma_run_batches_inv(rs0, archives.take(k), step, None, m);
    lemma_chained_run_heights(rs0, archives.take(k), step);
    lemma_monotonic_height_run(rs0, archives.take(k), step, None);
}

/// Idempotent resume: a run stopped cleanly between batches and then
/// re-run over the same archive set ends in exactly the store and
/// cursor of one uninterrupted run — same height, same total
/// difficulty, same hash index. Holds whenever the uninterrupted run
/// succeeds and the archive set carries consecutive blocks in files
/// of at most one batch step, continuing the store's height.
#[verifier::rlimit(100)]
pub proof fn lemma_idempotent_resume(
    m: StoreModel,
    archives: Seq<Vec<DecodedBlock>>,
    step: u64,
    k: int,
)
    requires
        m.wf(),
        0 <= k <= archives.len(),
        archives_chained(archives, count_height(m.headers.len() as int) as u64, step),
        run_import(m, archives, step, None).error is None,
    ensures
        ({
            let once = run_import(m, archives, step, None);
            let first = run_import(m, archives.take(k), step, None);
            let resumed = run_import(first.store, archives, step, None);
            &&& first.error is None
            &&& resumed.error is None
            &&& resumed.store == once.store
            &&& resumed.cursor == once.cursor
        }),
{
    let h0 = count_height(m.headers.len() as int) as u64;
    let seeded = crate::cursor::seed_outcome(store_highest(m), store_seed_td(m));
    assert(seeded is Ok);
    let c0 = seeded->Ok_0;
    let rs0 = start_state(m, c0);
    let once = run_import(m, archives, step, None);
    let rsn = run_batches(rs0, archives, step, None);
    assert(rsn.error is None);
    lemma_chained_take(archives, h0, step, k);
    lemma_prefix_error_free(rs0, archives, k, step, None);
    let rsk = run_batches(rs0, archives.take(k), step, None);
    let first = run_import(m, archives.take(k), step, None);
    assert(first.error is None);
    assert(first.store == (StoreModel {
        hash_index: rsk.store.hash_index + rsk.collected,
        ..rsk.store
    }));
    let resumed = run_import(first.store, archives, step, None);
    if k == 0 {
        assert(archives.take(0) =~= Seq::<Vec<DecodedBlock>>::empty());
        assert(rsk == rs0);
        assert(first.store =~= m) by {
            assert(m.hash_index + rsk.collected =~= m.hash_index);
        }
        assert(resumed == once);
    } else {
        lemma_stop_point_facts(m, archives, step, k);
        lemma_resume_from(rsk, archives, k, step, h0);
        lemma_run_batches_concat(rs0, archives.take(k), archives.skip(k), step, None);
        assert(archives.take(k) + archives.skip(k) =~= archives);
        assert(run_batches(rsk, archives.skip(k), step, None) == rsn);
        assert(resumed.store == once.store);
        assert(resumed.cursor == once.cursor);
        assert(resumed.error is None);
    }
}

} // verus!

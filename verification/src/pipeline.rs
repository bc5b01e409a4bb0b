//! The import pipeline: draining decoded blocks into staged batches,
//! the bounded-batch coordinator, and the resumable import loop.
//!
//! One batch covers one archive file, clamped to a bounded block
//! range. Blocks at or below the current height are skipped wholesale
//! (the idempotent-resume oracle); blocks past the range end stop the
//! drain. Every accepted block flows through the three segment
//! writers, the running total difficulty, and the hash collector; the
//! staged batch is then committed atomically together with its
//! checkpoint.

use vstd::prelude::*;

use crate::block::{DecodedBlock, Receipt};
use crate::collector::HashCollector;
use crate::cursor::{seed_outcome, ImportCursor};
use crate::error::{ImportError, SegmentKind};
use crate::segment::{ReceiptWriter, SegmentWriter};
use crate::store::{
    batch_extends, commit_refusal, committed, count_height, extends_ok, index_consistent,
    lemma_committed_wf, td_linked, bodies_linked, total_txs, top_td, Batch, BodyEntry, Checkpoint,
    HashIndexEntry, HeaderEntry, Store, StoreModel,
};
use crate::u256::{u256_limit, U256};

verus! {

/// How many blocks one production batch covers.
pub const ERA_STEP: u64 = 8192;

/// The stage id under which the import saves its checkpoint.
pub const ERA_STAGE_ID: u64 = 1;

/// The state of one archive drain: the skip oracle (`last`), the
/// running total difficulty, the five segment cursors, and everything
/// staged so far.
pub ghost struct DrainState {
    /// Highest block number accepted so far; the skip oracle.
    pub last: u64,
    /// Total difficulty through `last`.
    pub td: U256,
    /// Headers segment cursor.
    pub hdr_next: u64,
    /// Bodies segment cursor.
    pub body_next: u64,
    /// First transaction number of the next body.
    pub first_tx: u64,
    /// Receipts segment transaction cursor.
    pub rcpt_next: u64,
    /// Receipts segment block-finalize cursor.
    pub blk_next: u64,
    /// Staged header entries.
    pub headers: Seq<HeaderEntry>,
    /// Staged body entries.
    pub bodies: Seq<BodyEntry>,
    /// Staged receipts.
    pub receipts: Seq<Receipt>,
    /// Hash-index entries collected for the staged blocks.
    pub collected: Seq<HashIndexEntry>,
    /// Whether a block past the range end ended the drain.
    pub stopped: bool,
    /// The first fatal error, if one occurred.
    pub error: Option<ImportError>,
}

impl DrainState {
    /// The state after a fatal error: nothing else changes, the run
    /// is over.
    pub open spec fn fail(self, e: ImportError) -> DrainState {
        DrainState { error: Some(e), ..self }
    }
}

/// The drain state at the start of a batch: cursors read from the
/// store, nothing staged.
pub open spec fn init_drain_state(m: StoreModel, c: ImportCursor) -> DrainState {
    DrainState {
        last: c.height,
        td: c.total_difficulty,
        hdr_next: m.headers.len() as u64,
        body_next: m.bodies.len() as u64,
        first_tx: total_txs(m.bodies) as u64,
        rcpt_next: m.receipts.len() as u64,
        blk_next: m.headers.len() as u64,
        headers: Seq::<HeaderEntry>::empty(),
        bodies: Seq::<BodyEntry>::empty(),
        receipts: Seq::<Receipt>::empty(),
        collected: Seq::<HashIndexEntry>::empty(),
        stopped: false,
        error: None,
    }
}

/// One accepted block's full effect: total difficulty first, then the
/// header, body, receipts and block-finalize appends in segment
/// order, then the hash collection — or the first error any of those
/// steps raises.
pub open spec fn block_step(st: DrainState, b: DecodedBlock) -> DrainState {
    if st.td.as_int() + b.difficulty.as_int() >= u256_limit() {
        st.fail(ImportError::TotalDifficultyOverflow { number: b.number })
    } else {
        let td = U256::from_int(st.td.as_int() + b.difficulty.as_int());
        if b.number != st.hdr_next {
            st.fail(
                ImportError::SegmentOrdering {
                    segment: SegmentKind::Headers,
                    expected: st.hdr_next,
                    got: b.number,
                },
            )
        } else if b.number == u64::MAX {
            st.fail(ImportError::CursorOverflow { segment: SegmentKind::Headers })
        } else if b.number != st.body_next {
            st.fail(
                ImportError::SegmentOrdering {
                    segment: SegmentKind::Bodies,
                    expected: st.body_next,
                    got: b.number,
                },
            )
        } else if st.first_tx + b.tx_count > u64::MAX {
            st.fail(ImportError::TxNumberOverflow { number: b.number })
        } else if b.receipts@.len() > 0 && st.rcpt_next != st.first_tx {
            st.fail(
                ImportError::SegmentOrdering {
                    segment: SegmentKind::Receipts,
                    expected: st.rcpt_next,
                    got: st.first_tx,
                },
            )
        } else if b.receipts@.len() > 0 && st.first_tx + b.receipts@.len() > u64::MAX {
            st.fail(ImportError::CursorOverflow { segment: SegmentKind::Receipts })
        } else if b.number != st.blk_next {
            st.fail(ImportError::ReceiptBlockOrdering { expected: st.blk_next, got: b.number })
        } else {
            DrainState {
                last: b.number,
                td,
                hdr_next: (b.number + 1) as u64,
                body_next: (b.number + 1) as u64,
                first_tx: (st.first_tx + b.tx_count) as u64,
                rcpt_next: if b.receipts@.len() == 0 {
                    st.rcpt_next
                } else {
                    (st.first_tx + b.receipts@.len()) as u64
                },
                blk_next: (b.number + 1) as u64,
                headers: st.headers.push(
                    HeaderEntry { hash: b.hash, difficulty: b.difficulty, total_difficulty: td },
                ),
                bodies: st.bodies.push(BodyEntry { first_tx: st.first_tx, tx_count: b.tx_count }),
                receipts: st.receipts + b.receipts@,
                collected: st.collected.push(HashIndexEntry { hash: b.hash, number: b.number }),
                stopped: false,
                error: None,
            }
        }
    }
}

/// One block's effect on the drain: nothing once stopped or failed,
/// a skip at or below the oracle, a stop past the range end, and the
/// full [`block_step`] otherwise.
pub open spec fn drain_one(st: DrainState, b: DecodedBlock, end: u64) -> DrainState {
    if st.error is Some || st.stopped {
        st
    } else if b.number <= st.last {
        st
    } else if b.number > end {
        DrainState { stopped: true, ..st }
    } else {
        block_step(st, b)
    }
}

/// Draining a whole archive: blocks in file order, each through
/// [`drain_one`].
pub open spec fn drain(st: DrainState, blocks: Seq<DecodedBlock>, end: u64) -> DrainState
    decreases blocks.len(),
{
    if blocks.len() == 0 {
        st
    } else {
        drain(drain_one(st, blocks[0], end), blocks.drop_first(), end)
    }
}

/// A stopped or failed drain consumes nothing further.
pub proof fn lemma_drain_absorbed(st: DrainState, blocks: Seq<DecodedBlock>, end: u64)
    requires
        st.error is Some || st.stopped,
    ensures
        drain(st, blocks, end) == st,
    decreases blocks.len(),
{
    if blocks.len() > 0 {
        lemma_drain_absorbed(st, blocks.drop_first(), end);
    }
}

/// Draining a concatenation is draining the parts in turn.
pub proof fn lemma_drain_concat(
    st: DrainState,
    s1: Seq<DecodedBlock>,
    s2: Seq<DecodedBlock>,
    end: u64,
)
    ensures
        drain(st, s1 + s2, end) == drain(drain(st, s1, end), s2, end),
    decreases s1.len(),
{
    if s1.len() == 0 {
        assert(s1 + s2 =~= s2);
    } else {
        assert((s1 + s2)[0] == s1[0]);
        assert((s1 + s2).drop_first() =~= s1.drop_first() + s2);
        lemma_drain_concat(drain_one(st, s1[0], end), s1.drop_first(), s2, end);
    }
}

/// Appending one block to a drained prefix applies one more
/// [`drain_one`].
pub proof fn lemma_drain_push(st: DrainState, s: Seq<DecodedBlock>, b: DecodedBlock, end: u64)
    ensures
        drain(st, s.push(b), end) == drain_one(drain(st, s, end), b, end),
{
    lemma_drain_concat(st, s, seq![b], end);
    assert(s + seq![b] =~= s.push(b));
    assert(drain(drain(st, s, end), seq![b], end) == drain_one(drain(st, s, end), b, end)) by {
        let st1 = drain(st, s, end);
        assert(seq![b][0] == b);
        assert(seq![b].drop_first() =~= Seq::<DecodedBlock>::empty());
        assert(drain(drain_one(st1, b, end), seq![b].drop_first(), end) == drain_one(st1, b, end));
    }
}

/// The skip oracle never moves backwards while draining.
pub proof fn lemma_drain_monotonic(st: DrainState, blocks: Seq<DecodedBlock>, end: u64)
    ensures
        drain(st, blocks, end).last >= st.last,
    decreases blocks.len(),
{
    if blocks.len() > 0 {
        lemma_drain_monotonic(drain_one(st, blocks[0], end), blocks.drop_first(), end);
    }
}

/// How a drain's staged data relates to the store it was opened on
/// and the cursor it was seeded with: every cursor sits exactly past
/// the store plus the stage, and the staged chains link on where the
/// store's leave off.
pub open spec fn staged_ok(st: DrainState, m: StoreModel, c0: ImportCursor) -> bool {
    &&& st.headers.len() == st.bodies.len()
    &&& st.collected.len() == st.headers.len()
    &&& st.hdr_next == m.headers.len() + st.headers.len()
    &&& st.body_next == m.bodies.len() + st.bodies.len()
    &&& st.blk_next == m.headers.len() + st.headers.len()
    &&& st.first_tx == total_txs(m.bodies) + total_txs(st.bodies)
    &&& st.rcpt_next == m.receipts.len() + st.receipts.len()
    &&& st.last == count_height(m.headers.len() + st.headers.len() as int)
    &&& st.td == (if st.headers.len() == 0 {
        c0.total_difficulty
    } else {
        st.headers.last().total_difficulty
    })
    &&& td_linked(c0.total_difficulty.as_int(), st.headers)
    &&& bodies_linked(total_txs(m.bodies), st.bodies)
    &&& forall|k: int|
        0 <= k < st.collected.len() ==> st.collected[k] == (HashIndexEntry {
            hash: st.headers[k].hash,
            number: (m.headers.len() + k) as u64,
        })
}

/// One drain step keeps the staged data coherent with its store.
pub proof fn lemma_drain_one_staged(
    st: DrainState,
    b: DecodedBlock,
    end: u64,
    m: StoreModel,
    c0: ImportCursor,
)
    requires
        staged_ok(st, m, c0),
    ensures
        staged_ok(drain_one(st, b, end), m, c0),
{
    let st1 = drain_one(st, b, end);
    if st.error is None && !st.stopped && b.number > st.last && b.number <= end {
        let st2 = block_step(st, b);
        if st2.error is None {
            let hdr = HeaderEntry {
                hash: b.hash,
                difficulty: b.difficulty,
                total_difficulty: st2.td,
            };
            let bod = BodyEntry { first_tx: st.first_tx, tx_count: b.tx_count };
            assert(st2.headers == st.headers.push(hdr));
            assert(st2.bodies == st.bodies.push(bod));
            assert(st2.bodies.drop_last() =~= st.bodies);
            assert(total_txs(st2.bodies) == total_txs(st.bodies) + b.tx_count);
            assert(td_linked(c0.total_difficulty.as_int(), st2.headers)) by {
                assert forall|i: int| 0 <= i < st2.headers.len() implies (
                #[trigger] st2.headers[i]).total_difficulty.as_int() == (
                if i == 0 {
                    c0.total_difficulty.as_int()
                } else {
                    st2.headers[i - 1].total_difficulty.as_int()
                }) + st2.headers[i].difficulty.as_int() by {
                    if i < st.headers.len() {
                        assert(st2.headers[i] == st.headers[i]);
                        if i > 0 {
                            assert(st2.headers[i - 1] == st.headers[i - 1]);
                        }
                    } else {
                        assert(st2.headers[i] == hdr);
                        assert(st2.td.as_int() == st.td.as_int() + b.difficulty.as_int());
                        if i > 0 {
                            assert(st2.headers[i - 1] == st.headers[i - 1]);
                            assert(st.headers[i - 1] == st.headers.last());
                        }
                    }
                }
            }
            assert(bodies_linked(total_txs(m.bodies), st2.bodies)) by {
                assert forall|i: int| 0 <= i < st2.bodies.len() implies (
                #[trigger] st2.bodies[i]).first_tx == total_txs(m.bodies) + total_txs(
                    st2.bodies.take(i),
                ) by {
                    if i < st.bodies.len() {
                        assert(st2.bodies[i] == st.bodies[i]);
                        assert(st2.bodies.take(i) =~= st.bodies.take(i));
                    } else {
                        assert(st2.bodies[i] == bod);
                        assert(st2.bodies.take(i) =~= st.bodies);
                    }
                }
            }
            assert(forall|k: int|
                0 <= k < st2.collected.len() ==> st2.collected[k] == (HashIndexEntry {
                    hash: st2.headers[k].hash,
                    number: (m.headers.len() + k) as u64,
                })) by {
                assert forall|k: int| 0 <= k < st2.collected.len() implies st2.collected[k] == (
                HashIndexEntry { hash: st2.headers[k].hash, number: (m.headers.len() + k) as u64 })
                    by {
                    if k < st.collected.len() {
                        assert(st2.collected[k] == st.collected[k]);
                        assert(st2.headers[k] == st.headers[k]);
                    } else {
                        assert(st2.collected[k] == (HashIndexEntry {
                            hash: b.hash,
                            number: b.number,
                        }));
                        assert(st2.headers[k] == hdr);
                    }
                }
            }
        }
    }
}

/// A whole drain keeps the staged data coherent with its store.
pub proof fn lemma_drain_staged(
    st: DrainState,
    blocks: Seq<DecodedBlock>,
    end: u64,
    m: StoreModel,
    c0: ImportCursor,
)
    requires
        staged_ok(st, m, c0),
    ensures
        staged_ok(drain(st, blocks, end), m, c0),
    decreases blocks.len(),
{
    if blocks.len() > 0 {
        lemma_drain_one_staged(st, blocks[0], end, m, c0);
        lemma_drain_staged(drain_one(st, blocks[0], end), blocks.drop_first(), end, m, c0);
    }
}

/// The raw end of a batch opened at `height`: `height + step`,
/// saturating at the top of the key space.
pub open spec fn raw_batch_end(height: u64, step: u64) -> u64 {
    if height + step > u64::MAX {
        u64::MAX
    } else {
        (height + step) as u64
    }
}

/// The inclusive end of the batch range opened at `height`, clamped
/// to the caller's ceiling.
pub open spec fn batch_end(height: u64, step: u64, max_height: Option<u64>) -> u64 {
    match max_height {
        Some(m) => if m < raw_batch_end(height, step) {
            m
        } else {
            raw_batch_end(height, step)
        },
        None => raw_batch_end(height, step),
    }
}

/// Whether the caller's ceiling clamps this batch, making it the last
/// one of the run.
pub open spec fn batch_stop(height: u64, step: u64, max_height: Option<u64>) -> bool {
    match max_height {
        Some(m) => raw_batch_end(height, step) > m,
        None => false,
    }
}

/// Computes one batch's inclusive block range end and whether the
/// run must stop after it: `height + step`, clamped to `max_height`
/// when the caller set one.
pub fn batch_bounds(height: u64, step: u64, max_height: Option<u64>) -> (r: (u64, bool))
    ensures
        r.0 == batch_end(height, step, max_height),
        r.1 == batch_stop(height, step, max_height),
{
    let raw = if height <= u64::MAX - step {
        height + step
    } else {
        u64::MAX
    };
    match max_height {
        Some(m) => if raw > m {
            (m, true)
        } else {
            (raw, false)
        },
        None => (raw, false),
    }
}

/// Looks a block's body index range up among the staged bodies of the
/// batch under construction, the read-through the receipts path uses.
fn staged_body_index(first_header: u64, bodies: &Vec<BodyEntry>, number: u64) -> (r: Option<
    BodyEntry,
>)
    ensures
        first_header <= number && number - first_header < bodies@.len() ==> r == Some(
            bodies@[number - first_header],
        ),
        !(first_header <= number && number - first_header < bodies@.len()) ==> r is None,
{
    if number >= first_header && number - first_header < bodies.len() as u64 {
        Some(bodies[(number - first_header) as usize])
    } else {
        None
    }
}

/// An error inside some prefix pins the whole drain's outcome.
proof fn lemma_drain_error_prefix(init: DrainState, blocks: Seq<DecodedBlock>, i: int, end: u64)
    requires
        0 <= i < blocks.len(),
        drain(init, blocks.take(i + 1), end).error is Some,
    ensures
        drain(init, blocks, end) == drain(init, blocks.take(i + 1), end),
{
    assert(blocks.take(i + 1) + blocks.skip(i + 1) =~= blocks);
    lemma_drain_concat(init, blocks.take(i + 1), blocks.skip(i + 1), end);
    lemma_drain_absorbed(drain(init, blocks.take(i + 1), end), blocks.skip(i + 1), end);
}

/// The drain state an [`apply_block`] call starts from, read off the
/// executable cursors and staging buffers.
pub open spec fn exec_drain_state(
    cur: ImportCursor,
    header_writer: SegmentWriter,
    body_writer: SegmentWriter,
    receipt_writer: ReceiptWriter,
    first_tx: u64,
    headers: Seq<HeaderEntry>,
    bodies: Seq<BodyEntry>,
    receipts: Seq<Receipt>,
    collected: Seq<HashIndexEntry>,
) -> DrainState {
    DrainState {
        last: cur.height,
        td: cur.total_difficulty,
        hdr_next: header_writer.next_key,
        body_next: body_writer.next_key,
        first_tx,
        rcpt_next: receipt_writer.txs.next_key,
        blk_next: receipt_writer.next_block,
        headers,
        bodies,
        receipts,
        collected,
        stopped: false,
        error: None,
    }
}

/// Applies one accepted block: accumulates its difficulty, appends
/// header, body and receipts through their segment writers, finalizes
/// the block's receipt range, and collects its hash. The cursor and
/// the collected entries move only when the whole block went through;
/// the first error comes back unchanged from the writer that raised
/// it.
#[verifier::loop_isolation(false)]
#[verifier::rlimit(60)]
fn apply_block(
    b: &DecodedBlock,
    first_header: u64,
    header_writer: &mut SegmentWriter,
    body_writer: &mut SegmentWriter,
    receipt_writer: &mut ReceiptWriter,
    first_tx: &mut u64,
    cur: &mut ImportCursor,
    headers: &mut Vec<HeaderEntry>,
    bodies: &mut Vec<BodyEntry>,
    receipts: &mut Vec<Receipt>,
    collected: &mut Vec<HashIndexEntry>,
) -> (r: Result<(), ImportError>)
    requires
        old(header_writer).kind == SegmentKind::Headers,
        old(body_writer).kind == SegmentKind::Bodies,
        old(receipt_writer).txs.kind == SegmentKind::Receipts,
        b.number > old(cur).height,
        old(header_writer).next_key == first_header + old(headers)@.len(),
        old(headers)@.len() == old(bodies)@.len(),
    ensures
        final(header_writer).kind == old(header_writer).kind,
        final(body_writer).kind == old(body_writer).kind,
        final(receipt_writer).txs.kind == old(receipt_writer).txs.kind,
        ({
            let pre = exec_drain_state(
                *old(cur),
                *old(header_writer),
                *old(body_writer),
                *old(receipt_writer),
                *old(first_tx),
                old(headers)@,
                old(bodies)@,
                old(receipts)@,
                old(collected)@,
            );
            let st2 = block_step(pre, *b);
            &&& (st2.error matches Some(e) ==> r == Err::<(), ImportError>(e) && *final(cur)
                == *old(cur) && final(collected)@ == old(collected)@)
            &&& (st2.error is None ==> r == Ok::<(), ImportError>(()) && st2
                == exec_drain_state(
                *final(cur),
                *final(header_writer),
                *final(body_writer),
                *final(receipt_writer),
                *final(first_tx),
                final(headers)@,
                final(bodies)@,
                final(receipts)@,
                final(collected)@,
            ))
        }),
{
    let ghost pre = exec_drain_state(
        *old(cur),
        *old(header_writer),
        *old(body_writer),
        *old(receipt_writer),
        *old(first_tx),
        old(headers)@,
        old(bodies)@,
        old(receipts)@,
        old(collected)@,
    );
    // the running total difficulty grows before the header is written,
    // so the header entry can record it
    let new_td = match cur.total_difficulty.checked_add(b.difficulty) {
        Some(v) => v,
        None => {
            return Err(ImportError::TotalDifficultyOverflow { number: b.number });
        },
    };
    match header_writer.append(b.number) {
        Ok(()) => {},
        Err(e) => {
            return Err(e);
        },
    }
    headers.push(HeaderEntry { hash: b.hash, difficulty: b.difficulty, total_difficulty: new_td });
    match body_writer.append(b.number) {
        Ok(()) => {},
        Err(e) => {
            return Err(e);
        },
    }
    bodies.push(BodyEntry { first_tx: *first_tx, tx_count: b.tx_count });
    if *first_tx > u64::MAX - b.tx_count {
        return Err(ImportError::TxNumberOverflow { number: b.number });
    }
    // read the just-written body's index range back, the way the
    // receipts path aligns its transaction numbers
    let entry = match staged_body_index(first_header, bodies, b.number) {
        Some(e) => e,
        None => {
            // unreachable for a body staged just above, kept as an
            // explicit internal-consistency error
            return Err(ImportError::MissingBodyIndices { number: b.number });
        },
    };
    let ghost st2 = block_step(pre, *b);
    let mut k: usize = 0;
    let mut tx: u64 = entry.first_tx;
    while k < b.receipts.len()
        invariant
            k <= b.receipts@.len(),
            entry == (BodyEntry { first_tx: pre.first_tx, tx_count: b.tx_count }),
            tx == entry.first_tx + k,
            k > 0 ==> pre.rcpt_next == entry.first_tx,
            receipt_writer.next_block == pre.blk_next,
            receipt_writer.txs.kind == SegmentKind::Receipts,
            receipt_writer.txs.next_key == (if k == 0 {
                pre.rcpt_next
            } else {
                tx
            }),
            receipts@ == pre.receipts + b.receipts@.take(k as int),
        decreases b.receipts@.len() - k,
    {
        match receipt_writer.append_receipt(tx) {
            Ok(()) => {},
            Err(e) => {
                proof {
                    if k == 0 && pre.rcpt_next != pre.first_tx {
                        assert(st2.error == Some(e));
                    } else {
                        assert(tx == u64::MAX);
                        assert(pre.first_tx + b.receipts@.len() > u64::MAX);
                        assert(st2.error == Some(e));
                    }
                }
                return Err(e);
            },
        }
        receipts.push(b.receipts[k]);
        proof {
            assert(pre.receipts + b.receipts@.take(k as int + 1) =~= (pre.receipts
                + b.receipts@.take(k as int)).push(b.receipts@[k as int]));
        }
        tx = tx + 1;
        k += 1;
    }
    proof {
        assert(b.receipts@.take(b.receipts@.len() as int) =~= b.receipts@);
        if b.receipts.len() == 0 {
            assert(pre.receipts + b.receipts@.take(0) =~= pre.receipts);
        }
    }
    match receipt_writer.increment_block(b.number) {
        Ok(()) => {},
        Err(e) => {
            return Err(e);
        },
    }
    *first_tx = *first_tx + b.tx_count;
    collected.push(HashIndexEntry { hash: b.hash, number: b.number });
    *cur = ImportCursor { height: b.number, total_difficulty: new_td };
    proof {
        assert(st2.receipts == pre.receipts + b.receipts@);
        assert(receipts@ == st2.receipts);
    }
    Ok(())
}

/// Drains one archive's decoded blocks into a staged batch.
///
/// Skips every block at or below the cursor's height, stops past
/// `end`, and otherwise appends the block to all three segments,
/// accumulates its difficulty, and collects its hash. The first
/// fatal error aborts the batch: the staged writes are dropped and
/// nothing reaches the store. The cursor and the collector track
/// exactly the accepted blocks.
#[verifier::rlimit(100)]
pub fn process_archive(
    store: &Store,
    cursor: &mut ImportCursor,
    collector: &mut HashCollector,
    blocks: &Vec<DecodedBlock>,
    end: u64,
) -> (r: Result<Batch, ImportError>)
    requires
        store@.wf(),
    ensures
        ({
            let fin = drain(init_drain_state(store@, *old(cursor)), blocks@, end);
            &&& *final(cursor) == (ImportCursor { height: fin.last, total_difficulty: fin.td })
            &&& final(collector)@ == old(collector)@ + fin.collected
            &&& (fin.error is None ==> (r matches Ok(batch)
                && batch.first_header == store@.headers.len()
                && batch.first_receipt == store@.receipts.len()
                && batch.headers@ == fin.headers
                && batch.bodies@ == fin.bodies
                && batch.receipts@ == fin.receipts
                && batch.checkpoint == (Checkpoint {
                    stage_id: ERA_STAGE_ID,
                    processed_through: fin.last,
                })))
            &&& (fin.error matches Some(e) ==> r == Err::<Batch, ImportError>(e))
        }),
{
    let ghost init = init_drain_state(store@, *old(cursor));
    let first_header = store.header_count();
    let first_receipt = store.receipt_count();
    let mut header_writer = SegmentWriter::new(SegmentKind::Headers, first_header);
    let mut body_writer = SegmentWriter::new(SegmentKind::Bodies, store.body_count());
    let mut receipt_writer = ReceiptWriter::new(first_receipt, first_header);
    let mut first_tx = store.next_tx_number();
    let mut cur = *cursor;
    let mut collected: Vec<HashIndexEntry> = Vec::new();
    let mut headers: Vec<HeaderEntry> = Vec::new();
    let mut bodies: Vec<BodyEntry> = Vec::new();
    let mut receipts: Vec<Receipt> = Vec::new();
    let mut stopped = false;
    let mut i: usize = 0;
    let ghost mut gst = init;
    proof {
        assert(blocks@.take(0) =~= Seq::<DecodedBlock>::empty());
        assert(headers@ =~= gst.headers);
        assert(bodies@ =~= gst.bodies);
        assert(receipts@ =~= gst.receipts);
        assert(collected@ =~= gst.collected);
    }
    while i < blocks.len() && !stopped
        invariant
            i <= blocks@.len(),
            store@.wf(),
            init == init_drain_state(store@, *old(cursor)),
            first_header == store@.headers.len(),
            first_receipt == store@.receipts.len(),
            *cursor == *old(cursor),
            collector@ == old(collector)@,
            gst == drain(init, blocks@.take(i as int), end),
            gst.error is None,
            stopped == gst.stopped,
            (DrainState { stopped: false, error: None, ..gst }) == exec_drain_state(
                cur,
                header_writer,
                body_writer,
                receipt_writer,
                first_tx,
                headers@,
                bodies@,
                receipts@,
                collected@,
            ),
            header_writer.kind == SegmentKind::Headers,
            body_writer.kind == SegmentKind::Bodies,
            receipt_writer.txs.kind == SegmentKind::Receipts,
            gst.hdr_next == first_header + gst.headers.len(),
            gst.headers.len() == gst.bodies.len(),
        decreases blocks@.len() - i,
    {
        let b = &blocks[i];
        let ghost bspec = blocks@[i as int];
        proof {
            assert(blocks@.take(i as int + 1) =~= blocks@.take(i as int).push(bspec));
            lemma_drain_push(init, blocks@.take(i as int), bspec, end);
        }
        if b.number <= cur.height {
            proof {
                gst = drain_one(gst, bspec, end);
            }
            i += 1;
        } else if b.number > end {
            proof {
                gst = drain_one(gst, bspec, end);
            }
            stopped = true;
            i += 1;
        } else {
            let ghost pre = gst;
            match apply_block(
                b,
                first_header,
                &mut header_writer,
                &mut body_writer,
                &mut receipt_writer,
                &mut first_tx,
                &mut cur,
                &mut headers,
                &mut bodies,
                &mut receipts,
                &mut collected,
            ) {
                Ok(()) => {
                    proof {
                        gst = drain_one(gst, bspec, end);
                        assert(gst == block_step(pre, bspec));
                    }
                    i += 1;
                },
                Err(e) => {
                    proof {
                        gst = drain_one(gst, bspec, end);
                        assert(gst == block_step(pre, bspec));
                        assert(gst.error == Some(e));
                        lemma_drain_error_prefix(init, blocks@, i as int, end);
                    }
                    *cursor = cur;
                    collector.absorb(collected);
                    return Err(e);
                },
            }
        }
    }
    proof {
        if i == blocks@.len() {
            assert(blocks@.take(i as int) =~= blocks@);
        } else {
            assert(blocks@.take(i as int) + blocks@.skip(i as int) =~= blocks@);
            lemma_drain_concat(init, blocks@.take(i as int), blocks@.skip(i as int), end);
            lemma_drain_absorbed(gst, blocks@.skip(i as int), end);
        }
        let fin = drain(init, blocks@, end);
        assert(fin == gst);
        assert(cur == (ImportCursor { height: fin.last, total_difficulty: fin.td }));
        assert(headers@ == fin.headers);
        assert(bodies@ == fin.bodies);
        assert(receipts@ == fin.receipts);
        assert(collected@ == fin.collected);
        assert(fin.error is None);
    }
    let checkpoint = Checkpoint { stage_id: ERA_STAGE_ID, processed_through: cur.height };
    *cursor = cur;
    collector.absorb(collected);
    Ok(Batch { first_header, first_receipt, headers, bodies, receipts, checkpoint })
}


/// The state of a whole run: the store as committed so far, the
/// cursor, the entries collected for the terminal index pass, and
/// whether the run has stopped at its ceiling or failed.
#[verifier::ext_equal]
pub ghost struct RunState {
    pub store: StoreModel,
    pub cursor: ImportCursor,
    pub collected: Seq<HashIndexEntry>,
    pub stopped: bool,
    pub error: Option<ImportError>,
}

/// The run state a fresh run starts from.
pub open spec fn start_state(m: StoreModel, c: ImportCursor) -> RunState {
    RunState {
        store: m,
        cursor: c,
        collected: Seq::<HashIndexEntry>::empty(),
        stopped: false,
        error: None,
    }
}

/// The store's highest block number, as the seeding reads it.
pub open spec fn store_highest(m: StoreModel) -> Option<u64> {
    if m.headers.len() == 0 {
        None
    } else {
        Some((m.headers.len() - 1) as u64)
    }
}

/// The total difficulty the store records for its highest block, as
/// the seeding reads it.
pub open spec fn store_seed_td(m: StoreModel) -> Option<U256> {
    if m.headers.len() == 0 {
        None
    } else {
        Some(m.headers.last().total_difficulty)
    }
}

/// One archive's batch: open the clamped range, drain the archive,
/// and commit the staged batch with its checkpoint — or record the
/// first error and leave the store untouched.
pub open spec fn run_one(
    rs: RunState,
    blocks: Seq<DecodedBlock>,
    step: u64,
    max_height: Option<u64>,
) -> RunState {
    if rs.error is Some || rs.stopped {
        rs
    } else {
        let end = batch_end(rs.cursor.height, step, max_height);
        let stop = batch_stop(rs.cursor.height, step, max_height);
        let fin = drain(init_drain_state(rs.store, rs.cursor), blocks, end);
        if fin.error is Some {
            RunState { error: fin.error, ..rs }
        } else {
            let cp = Checkpoint { stage_id: ERA_STAGE_ID, processed_through: fin.last };
            match commit_refusal(
                rs.store,
                rs.store.headers.len() as u64,
                rs.store.receipts.len() as u64,
                cp.processed_through,
            ) {
                Some(e) => RunState { error: Some(e), ..rs },
                None => RunState {
                    store: committed(rs.store, fin.headers, fin.bodies, fin.receipts, cp),
                    cursor: ImportCursor { height: fin.last, total_difficulty: fin.td },
                    collected: rs.collected + fin.collected,
                    stopped: stop,
                    error: None,
                },
            }
        }
    }
}

/// Folding a whole archive set through [`run_one`], one batch per
/// archive file, in delivery order.
pub open spec fn run_batches(
    rs: RunState,
    archives: Seq<Vec<DecodedBlock>>,
    step: u64,
    max_height: Option<u64>,
) -> RunState
    decreases archives.len(),
{
    if archives.len() == 0 {
        rs
    } else {
        run_batches(run_one(rs, archives[0]@, step, max_height), archives.drop_first(), step, max_height)
    }
}

/// A failed or stopped run consumes nothing further.
pub proof fn lemma_run_batches_absorbed(
    rs: RunState,
    archives: Seq<Vec<DecodedBlock>>,
    step: u64,
    max_height: Option<u64>,
)
    requires
        rs.error is Some || rs.stopped,
    ensures
        run_batches(rs, archives, step, max_height) == rs,
    decreases archives.len(),
{
    if archives.len() > 0 {
        lemma_run_batches_absorbed(rs, archives.drop_first(), step, max_height);
    }
}

/// Running a concatenation of archive sets is running them in turn.
pub proof fn lemma_run_batches_concat(
    rs: RunState,
    a1: Seq<Vec<DecodedBlock>>,
    a2: Seq<Vec<DecodedBlock>>,
    step: u64,
    max_height: Option<u64>,
)
    ensures
        run_batches(rs, a1 + a2, step, max_height) == run_batches(
            run_batches(rs, a1, step, max_height),
            a2,
            step,
            max_height,
        ),
    decreases a1.len(),
{
    if a1.len() == 0 {
        assert(a1 + a2 =~= a2);
    } else {
        assert((a1 + a2)[0] == a1[0]);
        assert((a1 + a2).drop_first() =~= a1.drop_first() + a2);
        lemma_run_batches_concat(run_one(rs, a1[0]@, step, max_height), a1.drop_first(), a2, step, max_height);
    }
}

/// Appending one archive applies one more [`run_one`].
pub proof fn lemma_run_batches_push(
    rs: RunState,
    archives: Seq<Vec<DecodedBlock>>,
    a: Vec<DecodedBlock>,
    step: u64,
    max_height: Option<u64>,
)
    ensures
        run_batches(rs, archives.push(a), step, max_height) == run_one(
            run_batches(rs, archives, step, max_height),
            a@,
            step,
            max_height,
        ),
{
    lemma_run_batches_concat(rs, archives, seq![a], step, max_height);
    assert(archives + seq![a] =~= archives.push(a));
    let rs1 = run_batches(rs, archives, step, max_height);
    assert(seq![a][0] == a);
    assert(seq![a].drop_first() =~= Seq::<Vec<DecodedBlock>>::empty());
    assert(run_batches(run_one(rs1, a@, step, max_height), seq![a].drop_first(), step, max_height)
        == run_one(rs1, a@, step, max_height));
}

/// A whole import run over `m`: seed the cursor, process every
/// archive as one batch, and finish with the terminal hash-index
/// pass — or stop at the first error, leaving every batch committed
/// before it in place.
pub open spec fn run_import(
    m: StoreModel,
    archives: Seq<Vec<DecodedBlock>>,
    step: u64,
    max_height: Option<u64>,
) -> RunState {
    match seed_outcome(store_highest(m), store_seed_td(m)) {
        Err(e) => RunState {
            store: m,
            cursor: ImportCursor { height: 0, total_difficulty: U256 { lo: 0, hi: 0 } },
            collected: Seq::<HashIndexEntry>::empty(),
            stopped: false,
            error: Some(e),
        },
        Ok(c) => {
            let rs = run_batches(start_state(m, c), archives, step, max_height);
            if rs.error is Some {
                rs
            } else {
                RunState {
                    store: StoreModel { hash_index: rs.store.hash_index + rs.collected, ..rs.store },
                    ..rs
                }
            }
        },
    }
}

/// The batch coordinator: the cursor and hash collector of one run,
/// its batch bound parameters, and whether the ceiling was reached.
///
/// Drives one batch per archive file and stops cleanly at the
/// caller's ceiling; a fatal error aborts the batch that raised it
/// and leaves everything committed before it in place.
pub struct Importer {
    /// Running height and total difficulty.
    pub cursor: ImportCursor,
    /// Hash-index entries of every newly appended block.
    pub collector: HashCollector,
    /// How many blocks one batch covers.
    pub step: u64,
    /// The caller's height ceiling, if any.
    pub max_height: Option<u64>,
    /// Whether a clamped batch ended the run.
    pub stopped: bool,
}

/// Whether a cursor carries exactly what seeding from store state `m`
/// yields.
pub open spec fn cursor_matches(c: ImportCursor, m: StoreModel) -> bool {
    seed_outcome(store_highest(m), store_seed_td(m)) == Ok::<ImportCursor, ImportError>(c)
}

/// The coordinator's invariant against the store it drives: the store
/// is well-formed, the cursor matches its top, and the collected
/// entries extend its hash index consistently.
pub open spec fn importer_inv(imp: Importer, m: StoreModel) -> bool {
    &&& m.wf()
    &&& cursor_matches(imp.cursor, m)
    &&& index_consistent(m.hash_index + imp.collector@, m.headers)
}


/// One error-free drained batch, committed with its checkpoint, keeps
/// the run's footing: the store stays well-formed, the advanced
/// cursor matches its new top, and the collected entries still extend
/// its hash index consistently.
pub proof fn lemma_batch_commit_inv(
    m0: StoreModel,
    c0: ImportCursor,
    extra: Seq<HashIndexEntry>,
    blocks: Seq<DecodedBlock>,
    end: u64,
)
    requires
        m0.wf(),
        cursor_matches(c0, m0),
        index_consistent(m0.hash_index + extra, m0.headers),
        drain(init_drain_state(m0, c0), blocks, end).error is None,
    ensures
        ({
            let fin = drain(init_drain_state(m0, c0), blocks, end);
            let cp = Checkpoint { stage_id: ERA_STAGE_ID, processed_through: fin.last };
            let m1 = committed(m0, fin.headers, fin.bodies, fin.receipts, cp);
            &&& extends_ok(m0, fin.headers, fin.bodies, fin.receipts, cp)
            &&& m1.wf()
            &&& cursor_matches(
                ImportCursor { height: fin.last, total_difficulty: fin.td },
                m1,
            )
            &&& index_consistent(m1.hash_index + (extra + fin.collected), m1.headers)
            &&& fin.last >= c0.height
            &&& fin.collected.len() == fin.headers.len()
            &&& commit_refusal(
                m0,
                m0.headers.len() as u64,
                m0.receipts.len() as u64,
                fin.last,
            ) == (if m0.fail_checkpoint_writes {
                Some(ImportError::CheckpointWriteFailed)
            } else {
                None::<ImportError>
            })
        }),
{
    let init = init_drain_state(m0, c0);
    let fin = drain(init, blocks, end);
    let cp = Checkpoint { stage_id: ERA_STAGE_ID, processed_through: fin.last };
    let m1 = committed(m0, fin.headers, fin.bodies, fin.receipts, cp);
    lemma_drain_monotonic(init, blocks, end);
    lemma_drain_staged(init, blocks, end, m0, c0);
    if m0.headers.len() == 0 {
        assert(c0.total_difficulty.as_int() == 0);
    } else {
        assert(c0.total_difficulty == m0.headers.last().total_difficulty);
    }
    assert(td_linked(top_td(m0.headers), fin.headers));
    assert(extends_ok(m0, fin.headers, fin.bodies, fin.receipts, cp));
    lemma_committed_wf(m0, fin.headers, fin.bodies, fin.receipts, cp);
    assert(cursor_matches(ImportCursor { height: fin.last, total_difficulty: fin.td }, m1)) by {
        if fin.headers.len() == 0 {
            assert(m1.headers =~= m0.headers);
            assert(fin.last == c0.height);
            assert(fin.td == c0.total_difficulty);
        } else {
            assert(m1.headers.last() == fin.headers.last());
            assert(store_highest(m1) == Some(fin.last));
            assert(store_seed_td(m1) == Some(fin.td));
        }
    }
    let e0 = m0.hash_index + extra;
    let e1 = m1.hash_index + (extra + fin.collected);
    assert(e1 =~= e0 + fin.collected);
    assert(index_consistent(e0 + fin.collected, m1.headers)) by {
        assert forall|i: int| 0 <= i < (e0 + fin.collected).len() implies (#[trigger] (e0
            + fin.collected)[i]).number < m1.headers.len() && (e0 + fin.collected)[i].hash
            == m1.headers[(e0 + fin.collected)[i].number as int].hash by {
            if i < e0.len() {
                assert((e0 + fin.collected)[i] == e0[i]);
                assert(m1.headers[e0[i].number as int] == m0.headers[e0[i].number as int]);
            } else {
                let j = i - e0.len();
                assert((e0 + fin.collected)[i] == fin.collected[j]);
                assert(fin.collected[j] == (HashIndexEntry {
                    hash: fin.headers[j].hash,
                    number: (m0.headers.len() + j) as u64,
                }));
                assert(m1.headers[m0.headers.len() + j] == fin.headers[j]);
            }
        }
        assert forall|i: int, j: int| 0 <= i < j < (e0 + fin.collected).len() implies (
        #[trigger] (e0 + fin.collected)[i]).number < (#[trigger] (e0 + fin.collected)[j]).number
            by {
            if j < e0.len() {
                assert((e0 + fin.collected)[i] == e0[i] && (e0 + fin.collected)[j] == e0[j]);
            } else if i < e0.len() {
                assert((e0 + fin.collected)[i] == e0[i]);
                assert(e0[i].number < m0.headers.len());
                assert((e0 + fin.collected)[j] == fin.collected[j - e0.len()]);
            } else {
                assert((e0 + fin.collected)[i] == fin.collected[i - e0.len()]);
                assert((e0 + fin.collected)[j] == fin.collected[j - e0.len()]);
            }
        }
    }
}

impl Importer {
    /// Seeds a coordinator from the store: the current height with
    /// its recorded total difficulty (zero for an empty store), an
    /// empty collector, and this run's batch bounds.
    pub fn begin(store: &Store, step: u64, max_height: Option<u64>) -> (r: Result<
        Importer,
        ImportError,
    >)
        requires
            store@.wf(),
        ensures
            (seed_outcome(store_highest(store@), store_seed_td(store@)) matches Ok(c) ==> (
            r matches Ok(imp) && imp.cursor == c && imp.collector@ == Seq::<
                HashIndexEntry,
            >::empty() && imp.step == step && imp.max_height == max_height && imp.stopped == false
                && importer_inv(imp, store@))),
            (seed_outcome(store_highest(store@), store_seed_td(store@)) matches Err(e) ==> r
                == Err::<Importer, ImportError>(e)),
    {
        let highest = store.highest_block();
        let td = match highest {
            Some(h) => store.total_difficulty_at(h),
            None => None,
        };
        let cursor = match ImportCursor::seed(highest, td) {
            Ok(c) => c,
            Err(e) => {
                return Err(e);
            },
        };
        let imp = Importer {
            cursor,
            collector: HashCollector::new(),
            step,
            max_height,
            stopped: false,
        };
        proof {
            assert(store@.hash_index + imp.collector@ =~= store@.hash_index);
        }
        Ok(imp)
    }

    /// Processes one archive as one batch: opens the clamped range,
    /// drains the archive into a staged batch, and commits it
    /// atomically with its checkpoint. Returns whether the run goes
    /// on; once the ceiling is reached every further archive is left
    /// untouched. On an error nothing of the failed batch reaches the
    /// store.
    pub fn on_archive(&mut self, store: &mut Store, blocks: &Vec<DecodedBlock>) -> (r: Result<
        bool,
        ImportError,
    >)
        requires
            importer_inv(*old(self), old(store)@),
        ensures
            final(self).step == old(self).step,
            final(self).max_height == old(self).max_height,
            final(self).cursor.height >= old(self).cursor.height,
            ({
                let rs0 = RunState {
                    store: old(store)@,
                    cursor: old(self).cursor,
                    collected: old(self).collector@,
                    stopped: old(self).stopped,
                    error: None,
                };
                let rs1 = run_one(rs0, blocks@, old(self).step, old(self).max_height);
                let end = batch_end(old(self).cursor.height, old(self).step, old(self).max_height);
                let fin = drain(init_drain_state(old(store)@, old(self).cursor), blocks@, end);
                &&& final(store)@ == rs1.store
                &&& (rs1.error is None ==> r == Ok::<bool, ImportError>(!rs1.stopped) && final(self).cursor == rs1.cursor && final(self).collector@ == rs1.collected && final(self).stopped == rs1.stopped && importer_inv(*final(self), final(store)@))
                &&& (rs1.error matches Some(e) ==> r == Err::<bool, ImportError>(e) && final(self).stopped == old(self).stopped)
                &&& (rs1.error is Some && !old(self).stopped ==> final(self).cursor == (
                ImportCursor { height: fin.last, total_difficulty: fin.td }) && final(self).collector@ == old(self).collector@ + fin.collected)
            }),
    {
        if self.stopped {
            return Ok(false);
        }
        let ghost m0 = store@;
        let ghost c0 = self.cursor;
        let (end, stop) = batch_bounds(self.cursor.height, self.step, self.max_height);
        let ghost init = init_drain_state(m0, c0);
        proof {
            lemma_drain_monotonic(init, blocks@, end);
            lemma_drain_staged(init, blocks@, end, m0, c0);
        }
        let batch = match process_archive(store, &mut self.cursor, &mut self.collector, blocks, end)
            {
            Ok(b) => b,
            Err(e) => {
                return Err(e);
            },
        };
        let ghost fin = drain(init, blocks@, end);
        proof {
            lemma_batch_commit_inv(m0, c0, old(self).collector@, blocks@, end);
        }
        let ghost m1 = committed(m0, fin.headers, fin.bodies, fin.receipts, batch.checkpoint);
        match store.commit(batch) {
            Ok(()) => {},
            Err(e) => {
                return Err(e);
            },
        }
        self.stopped = stop;
        proof {
            assert(store@.hash_index + self.collector@ =~= m1.hash_index + (old(self).collector@
                + fin.collected));
        }
        Ok(!stop)
    }

    /// The terminal pass: merges every collected hash-index entry
    /// into the store's queryable index and returns the final height.
    pub fn finish(self, store: &mut Store) -> (r: u64)
        requires
            importer_inv(self, old(store)@),
        ensures
            final(store)@ == (StoreModel {
                hash_index: old(store)@.hash_index + self.collector@,
                ..old(store)@
            }),
            final(store)@.wf(),
            r == self.cursor.height,
    {
        let Importer { cursor, collector, .. } = self;
        store.commit_hash_index(collector.into_entries());
        cursor.height
    }
}

/// Imports an archive set into the store and returns the final
/// height.
///
/// Seeds the cursor from the store's current top, replays every
/// archive as one atomically committed batch — skipping blocks the
/// store already holds, stopping at `max_height` — and ends with the
/// terminal pass that builds the hash index from all collected
/// entries. On an error the store keeps exactly the batches committed
/// before it; re-invoking resumes from that point.
#[verifier::rlimit(100)]
pub fn import(
    store: &mut Store,
    archives: &Vec<Vec<DecodedBlock>>,
    step: u64,
    max_height: Option<u64>,
) -> (r: Result<u64, ImportError>)
    requires
        old(store)@.wf(),
    ensures
        ({
            let out = run_import(old(store)@, archives@, step, max_height);
            &&& final(store)@ == out.store
            &&& (out.error is None ==> r == Ok::<u64, ImportError>(out.cursor.height) && final(store)@.wf())
            &&& (out.error matches Some(e) ==> r == Err::<u64, ImportError>(e))
        }),
{
    let mut importer = match Importer::begin(store, step, max_height) {
        Ok(imp) => imp,
        Err(e) => {
            return Err(e);
        },
    };
    let ghost c0 = importer.cursor;
    let ghost rs0 = start_state(old(store)@, c0);
    let mut i: usize = 0;
    while i < archives.len()
        invariant
            i <= archives@.len(),
            rs0 == start_state(old(store)@, c0),
            seed_outcome(store_highest(old(store)@), store_seed_td(old(store)@))
                == Ok::<ImportCursor, ImportError>(c0),
            importer_inv(importer, store@),
            importer.step == step,
            importer.max_height == max_height,
            ({
                let rs = run_batches(rs0, archives@.take(i as int), step, max_height);
                &&& rs.error is None
                &&& rs.store == store@
                &&& rs.cursor == importer.cursor
                &&& rs.collected == importer.collector@
                &&& rs.stopped == importer.stopped
            }),
        decreases archives@.len() - i,
    {
        proof {
            assert(archives@.take(i as int + 1) =~= archives@.take(i as int).push(
                archives@[i as int],
            ));
            lemma_run_batches_push(rs0, archives@.take(i as int), archives@[i as int], step, max_height);
        }
        match importer.on_archive(store, &archives[i]) {
            Ok(_going) => {},
            Err(e) => {
                proof {
                    let rs1 = run_batches(rs0, archives@.take(i as int + 1), step, max_height);
                    lemma_run_batches_absorbed(rs1, archives@.skip(i as int + 1), step, max_height);
                    lemma_run_batches_concat(
                        rs0,
                        archives@.take(i as int + 1),
                        archives@.skip(i as int + 1),
                        step,
                        max_height,
                    );
                    assert(archives@.take(i as int + 1) + archives@.skip(i as int + 1)
                        =~= archives@);
                }
                return Err(e);
            },
        }
        i += 1;
    }
    proof {
        assert(archives@.take(i as int) =~= archives@);
    }
    let height = importer.finish(store);
    Ok(height)
}




} // verus!

//! The segmented block store and its atomic batch commit.
//!
//! Three append-only segments (headers and bodies keyed by block
//! number, receipts keyed by global transaction number), one
//! checkpoint record, and a hash-to-height index. A batch of writes
//! is staged in memory and flushed together with its checkpoint by
//! one [`Store::commit`] call that either applies everything or
//! changes nothing, so a partial commit is structurally impossible.

use vstd::prelude::*;

use crate::block::{BlockHash, Receipt};
use crate::error::ImportError;
use crate::u256::U256;

verus! {

/// What the headers segment stores per block: the hash, the block's
/// own difficulty, and the running total difficulty through it.
#[derive(Clone, Copy, Debug, PartialEq, Eq, Structural)]
pub struct HeaderEntry {
    pub hash: BlockHash,
    pub difficulty: U256,
    pub total_difficulty: U256,
}

/// What the bodies segment stores per block: the index range its
/// transactions occupy in the receipts segment.
#[derive(Clone, Copy, Debug, PartialEq, Eq, Structural)]
pub struct BodyEntry {
    /// Global number of the body's first transaction.
    pub first_tx: u64,
    /// How many transactions the body carries.
    pub tx_count: u64,
}

/// One hash-index record: a block hash mapped to its block number.
#[derive(Clone, Copy, Debug, PartialEq, Eq, Structural)]
pub struct HashIndexEntry {
    pub hash: BlockHash,
    pub number: u64,
}

/// A persisted marker of how far a processing stage has progressed.
#[derive(Clone, Copy, Debug, PartialEq, Eq, Structural)]
pub struct Checkpoint {
    /// Which stage the marker belongs to.
    pub stage_id: u64,
    /// The highest block number the stage has fully processed.
    pub processed_through: u64,
}

/// The mathematical contents of a [`Store`].
#[verifier::ext_equal]
pub ghost struct StoreModel {
    pub headers: Seq<HeaderEntry>,
    pub bodies: Seq<BodyEntry>,
    pub receipts: Seq<Receipt>,
    pub checkpoint: Option<Checkpoint>,
    pub hash_index: Seq<HashIndexEntry>,
    pub fail_checkpoint_writes: bool,
}

/// Total transaction count recorded by a run of body entries.
pub open spec fn total_txs(bodies: Seq<BodyEntry>) -> int
    decreases bodies.len(),
{
    if bodies.len() == 0 {
        0
    } else {
        total_txs(bodies.drop_last()) + bodies.last().tx_count
    }
}

/// Each body's `first_tx` continues exactly where the bodies before
/// it (plus `base` earlier transactions) left off.
pub open spec fn bodies_linked(base: int, bodies: Seq<BodyEntry>) -> bool {
    forall|i: int|
        0 <= i < bodies.len() ==> (#[trigger] bodies[i]).first_tx == base + total_txs(
            bodies.take(i),
        )
}

/// Each header's total difficulty extends the one before it (or
/// `base`, for the first) by exactly its own difficulty.
pub open spec fn td_linked(base: int, headers: Seq<HeaderEntry>) -> bool {
    forall|i: int|
        0 <= i < headers.len() ==> (#[trigger] headers[i]).total_difficulty.as_int() == (
        if i == 0 {
            base
        } else {
            headers[i - 1].total_difficulty.as_int()
        }) + headers[i].difficulty.as_int()
}

/// The total difficulty recorded at the top of a header run, or
/// `0` for an empty one.
pub open spec fn top_td(headers: Seq<HeaderEntry>) -> int {
    if headers.len() == 0 {
        0
    } else {
        headers.last().total_difficulty.as_int()
    }
}

/// The height a store of `n` headers stands at: headers are keyed by
/// block number from zero, so this is `n - 1`, or `0` when empty.
pub open spec fn count_height(n: int) -> int {
    if n == 0 {
        0
    } else {
        n - 1
    }
}

/// Hash-index entries point at blocks the store holds, carry those
/// blocks' recorded hashes, and are strictly ascending by number (so
/// no block is indexed twice).
pub open spec fn index_consistent(
    entries: Seq<HashIndexEntry>,
    headers: Seq<HeaderEntry>,
) -> bool {
    &&& forall|i: int|
        0 <= i < entries.len() ==> (#[trigger] entries[i]).number < headers.len()
            && entries[i].hash == headers[entries[i].number as int].hash
    &&& forall|i: int, j: int|
        0 <= i < j < entries.len() ==> (#[trigger] entries[i]).number < (
        #[trigger] entries[j]).number
}

/// First-match lookup over hash-index entries, in commit order.
pub open spec fn index_lookup(entries: Seq<HashIndexEntry>, hash: BlockHash) -> Option<u64>
    decreases entries.len(),
{
    if entries.len() == 0 {
        None
    } else if entries[0].hash == hash {
        Some(entries[0].number)
    } else {
        index_lookup(entries.drop_first(), hash)
    }
}

impl StoreModel {
    /// Well-formedness: the three segments are mutually aligned, the
    /// running totals chain correctly, and the checkpoint never runs
    /// ahead of the data it describes.
    pub open spec fn wf(self) -> bool {
        &&& self.headers.len() == self.bodies.len()
        &&& self.headers.len() <= u64::MAX
        &&& self.receipts.len() <= u64::MAX
        &&& 0 <= total_txs(self.bodies) <= u64::MAX
        &&& td_linked(0, self.headers)
        &&& bodies_linked(0, self.bodies)
        &&& (self.checkpoint matches Some(c) ==> c.processed_through <= count_height(
            self.headers.len() as int,
        ))
        &&& index_consistent(self.hash_index, self.headers)
    }

    /// The store's height: the number of its highest block.
    pub open spec fn height(self) -> int {
        count_height(self.headers.len() as int)
    }
}

/// A batch of staged writes: entries for the three segments plus the
/// checkpoint they are committed with.
#[derive(Clone, Debug, PartialEq, Eq)]
pub struct Batch {
    /// The block number the first staged header and body carry; must
    /// equal the store's header count at commit.
    pub first_header: u64,
    /// The transaction number the first staged receipt carries; must
    /// equal the store's receipt count at commit.
    pub first_receipt: u64,
    pub headers: Vec<HeaderEntry>,
    pub bodies: Vec<BodyEntry>,
    pub receipts: Vec<Receipt>,
    pub checkpoint: Checkpoint,
}

/// Whether staged segment entries coherently continue the store state
/// `m`: their chains link on where `m`'s leave off and the checkpoint
/// names the resulting height.
pub open spec fn extends_ok(
    m: StoreModel,
    headers: Seq<HeaderEntry>,
    bodies: Seq<BodyEntry>,
    receipts: Seq<Receipt>,
    checkpoint: Checkpoint,
) -> bool {
    &&& headers.len() == bodies.len()
    &&& m.headers.len() + headers.len() <= u64::MAX
    &&& m.receipts.len() + receipts.len() <= u64::MAX
    &&& td_linked(top_td(m.headers), headers)
    &&& bodies_linked(total_txs(m.bodies), bodies)
    &&& total_txs(m.bodies) + total_txs(bodies) <= u64::MAX
    &&& checkpoint.processed_through == count_height(m.headers.len() + headers.len() as int)
}

/// Whether `batch` is a coherent continuation of the store state `m`:
/// staged on top of exactly `m`'s segment ends, with its own chains
/// linking on, and its checkpoint naming the resulting height.
pub open spec fn batch_extends(batch: Batch, m: StoreModel) -> bool {
    &&& batch.first_header == m.headers.len()
    &&& batch.first_receipt == m.receipts.len()
    &&& extends_ok(m, batch.headers@, batch.bodies@, batch.receipts@, batch.checkpoint)
}

/// The store state a successful commit over `m` leaves: all three
/// segments extended together and the checkpoint replaced.
pub open spec fn committed(
    m: StoreModel,
    headers: Seq<HeaderEntry>,
    bodies: Seq<BodyEntry>,
    receipts: Seq<Receipt>,
    checkpoint: Checkpoint,
) -> StoreModel {
    StoreModel {
        headers: m.headers + headers,
        bodies: m.bodies + bodies,
        receipts: m.receipts + receipts,
        checkpoint: Some(checkpoint),
        hash_index: m.hash_index,
        fail_checkpoint_writes: m.fail_checkpoint_writes,
    }
}

/// Whether a commit to a store in state `m` is refused, and with
/// which error, given the batch's claimed segment positions and its
/// checkpoint height.
pub open spec fn commit_refusal(
    m: StoreModel,
    first_header: u64,
    first_receipt: u64,
    processed_through: u64,
) -> Option<ImportError> {
    if m.fail_checkpoint_writes {
        Some(ImportError::CheckpointWriteFailed)
    } else if first_header != m.headers.len() {
        Some(
            ImportError::StaleBatch { expected: m.headers.len() as u64, got: first_header },
        )
    } else if first_receipt != m.receipts.len() {
        Some(
            ImportError::StaleBatch { expected: m.receipts.len() as u64, got: first_receipt },
        )
    } else if m.checkpoint matches Some(c) && processed_through < c.processed_through {
        Some(
            ImportError::CheckpointRewound {
                have: m.checkpoint->Some_0.processed_through,
                new: processed_through,
            },
        )
    } else {
        None
    }
}

/// The durable, segmented block store.
///
/// An in-memory stand-in for the node's storage backend with the
/// same shape: per-kind append-only segments, one checkpoint record
/// per stage, and a block-hash index, all advanced only through
/// atomic batch commits.
#[derive(Clone, Debug, PartialEq, Eq)]
pub struct Store {
    pub headers: Vec<HeaderEntry>,
    pub bodies: Vec<BodyEntry>,
    pub receipts: Vec<Receipt>,
    pub checkpoint: Option<Checkpoint>,
    pub hash_index: Vec<HashIndexEntry>,
    /// Test-harness fault injection: when set, every checkpoint write
    /// (and with it the whole paired commit) fails deterministically.
    pub fail_checkpoint_writes: bool,
}

impl View for Store {
    type V = StoreModel;

    open spec fn view(&self) -> StoreModel {
        StoreModel {
            headers: self.headers@,
            bodies: self.bodies@,
            receipts: self.receipts@,
            checkpoint: self.checkpoint,
            hash_index: self.hash_index@,
            fail_checkpoint_writes: self.fail_checkpoint_writes,
        }
    }
}

impl Store {
    /// An empty store: no blocks, no checkpoint, no index.
    pub fn new() -> (s: Store)
        ensures
            s@ == (StoreModel {
                headers: Seq::<HeaderEntry>::empty(),
                bodies: Seq::<BodyEntry>::empty(),
                receipts: Seq::<Receipt>::empty(),
                checkpoint: None::<Checkpoint>,
                hash_index: Seq::<HashIndexEntry>::empty(),
                fail_checkpoint_writes: false,
            }),
            s@.wf(),
    {
        let s = Store {
            headers: Vec::new(),
            bodies: Vec::new(),
            receipts: Vec::new(),
            checkpoint: None,
            hash_index: Vec::new(),
            fail_checkpoint_writes: false,
        };
        proof {
            assert(s@.headers =~= Seq::<HeaderEntry>::empty());
            assert(s@.bodies =~= Seq::<BodyEntry>::empty());
            assert(s@.receipts =~= Seq::<Receipt>::empty());
            assert(s@.hash_index =~= Seq::<HashIndexEntry>::empty());
        }
        s
    }

    /// A store holding only the genesis block, as a freshly
    /// initialized node leaves it: block zero with an empty body and
    /// a total difficulty equal to its own difficulty.
    pub fn with_genesis(hash: BlockHash, difficulty: U256) -> (s: Store)
        ensures
            s@.headers == (seq![
                HeaderEntry { hash, difficulty, total_difficulty: difficulty },
            ]),
            s@.bodies == (seq![BodyEntry { first_tx: 0, tx_count: 0 }]),
            s@.receipts == Seq::<Receipt>::empty(),
            s@.checkpoint == None::<Checkpoint>,
            s@.hash_index == Seq::<HashIndexEntry>::empty(),
            s@.fail_checkpoint_writes == false,
            s@.wf(),
            s@.height() == 0,
    {
        let mut headers: Vec<HeaderEntry> = Vec::new();
        headers.push(HeaderEntry { hash, difficulty, total_difficulty: difficulty });
        let mut bodies: Vec<BodyEntry> = Vec::new();
        bodies.push(BodyEntry { first_tx: 0, tx_count: 0 });
        let s = Store {
            headers,
            bodies,
            receipts: Vec::new(),
            checkpoint: None,
            hash_index: Vec::new(),
            fail_checkpoint_writes: false,
        };
        proof {
            assert(s@.headers =~= seq![
                HeaderEntry { hash, difficulty, total_difficulty: difficulty },
            ]);
            assert(s@.bodies =~= seq![BodyEntry { first_tx: 0, tx_count: 0 }]);
            assert(s@.receipts =~= Seq::<Receipt>::empty());
            assert(s@.hash_index =~= Seq::<HashIndexEntry>::empty());
            assert(s@.bodies.drop_last() =~= Seq::<BodyEntry>::empty());
            assert(s@.bodies[0].first_tx == 0 + total_txs(s@.bodies.take(0))) by {
                assert(s@.bodies.take(0) =~= Seq::<BodyEntry>::empty());
            }
        }
        s
    }

    /// The number of headers the store holds.
    pub fn header_count(&self) -> (r: u64)
        ensures
            r == self@.headers.len(),
    {
        self.headers.len() as u64
    }

    /// The number of receipts the store holds.
    pub fn receipt_count(&self) -> (r: u64)
        ensures
            r == self@.receipts.len(),
    {
        self.receipts.len() as u64
    }

    /// The number of bodies the store holds.
    pub fn body_count(&self) -> (r: u64)
        ensures
            r == self@.bodies.len(),
    {
        self.bodies.len() as u64
    }

    /// The global number the next written body's first transaction
    /// will carry, read through the last body's index range.
    pub fn next_tx_number(&self) -> (r: u64)
        requires
            self@.wf(),
        ensures
            r == total_txs(self@.bodies),
    {
        if self.bodies.len() == 0 {
            0
        } else {
            let e = self.bodies[self.bodies.len() - 1];
            proof {
                assert(self@.bodies.take(self@.bodies.len() - 1) =~= self@.bodies.drop_last());
                assert(e.first_tx == total_txs(self@.bodies.drop_last()));
                lemma_total_txs_nonneg(self@.bodies.drop_last());
            }
            e.first_tx + e.tx_count
        }
    }

    /// The highest imported block number, or `None` for an empty
    /// store.
    pub fn highest_block(&self) -> (r: Option<u64>)
        ensures
            self@.headers.len() == 0 ==> r is None,
            self@.headers.len() > 0 ==> r == Some((self@.headers.len() - 1) as u64),
    {
        if self.headers.len() == 0 {
            None
        } else {
            Some((self.headers.len() - 1) as u64)
        }
    }

    /// The header entry of block `number`, if the store holds it.
    pub fn header(&self, number: u64) -> (r: Option<HeaderEntry>)
        ensures
            number < self@.headers.len() ==> r == Some(self@.headers[number as int]),
            number >= self@.headers.len() ==> r is None,
    {
        if number < self.headers.len() as u64 {
            Some(self.headers[number as usize])
        } else {
            None
        }
    }

    /// The total difficulty recorded for block `number`, if the store
    /// holds it.
    pub fn total_difficulty_at(&self, number: u64) -> (r: Option<U256>)
        ensures
            number < self@.headers.len() ==> r == Some(
                self@.headers[number as int].total_difficulty,
            ),
            number >= self@.headers.len() ==> r is None,
    {
        if number < self.headers.len() as u64 {
            Some(self.headers[number as usize].total_difficulty)
        } else {
            None
        }
    }

    /// The receipt-range index of block `number`'s body, if the store
    /// holds it.
    pub fn block_body_index(&self, number: u64) -> (r: Option<BodyEntry>)
        ensures
            number < self@.bodies.len() ==> r == Some(self@.bodies[number as int]),
            number >= self@.bodies.len() ==> r is None,
    {
        if number < self.bodies.len() as u64 {
            Some(self.bodies[number as usize])
        } else {
            None
        }
    }

    /// The receipt stored under global transaction number `tx`.
    pub fn receipt(&self, tx: u64) -> (r: Option<Receipt>)
        ensures
            tx < self@.receipts.len() ==> r == Some(self@.receipts[tx as int]),
            tx >= self@.receipts.len() ==> r is None,
    {
        if tx < self.receipts.len() as u64 {
            Some(self.receipts[tx as usize])
        } else {
            None
        }
    }

    /// The stage checkpoint, if one has been committed.
    pub fn checkpoint(&self) -> (r: Option<Checkpoint>)
        ensures
            r == self@.checkpoint,
    {
        self.checkpoint
    }

    /// Looks a block's number up by its hash in the committed index:
    /// the queryable side of the hash index.
    pub fn block_number_by_hash(&self, hash: &BlockHash) -> (r: Option<u64>)
        ensures
            r == index_lookup(self@.hash_index, *hash),
    {
        let mut i: usize = 0;
        proof {
            assert(self@.hash_index.skip(0) =~= self@.hash_index);
        }
        while i < self.hash_index.len()
            invariant
                i <= self@.hash_index.len(),
                index_lookup(self@.hash_index, *hash) == index_lookup(
                    self@.hash_index.skip(i as int),
                    *hash,
                ),
            decreases self@.hash_index.len() - i,
        {
            let e = self.hash_index[i];
            proof {
                assert(self@.hash_index.skip(i as int)[0] == self@.hash_index[i as int]);
            }
            if e.hash == *hash {
                return Some(e.number);
            }
            proof {
                assert(self@.hash_index.skip(i as int).drop_first() =~= self@.hash_index.skip(
                    i as int + 1,
                ));
            }
            i = i + 1;
        }
        proof {
            assert(self@.hash_index.skip(i as int) =~= Seq::<HashIndexEntry>::empty());
        }
        None
    }

    /// How many entries the hash index holds.
    pub fn hash_index_len(&self) -> (r: u64)
        ensures
            r == self@.hash_index.len(),
    {
        self.hash_index.len() as u64
    }

    /// The hash-index entry at position `i`, in commit order.
    pub fn hash_index_entry(&self, i: u64) -> (r: Option<HashIndexEntry>)
        ensures
            i < self@.hash_index.len() ==> r == Some(self@.hash_index[i as int]),
            i >= self@.hash_index.len() ==> r is None,
    {
        if i < self.hash_index.len() as u64 {
            Some(self.hash_index[i as usize])
        } else {
            None
        }
    }

    /// Arms or disarms deterministic checkpoint-write failure; a test
    /// harness hook, nothing else changes.
    pub fn set_checkpoint_failure(&mut self, fail: bool)
        ensures
            final(self)@ == (StoreModel { fail_checkpoint_writes: fail, ..old(self)@ }),
    {
        self.fail_checkpoint_writes = fail;
    }

    /// Commits a staged batch atomically: all three segments and the
    /// checkpoint are applied together, or — on a refused batch or an
    /// injected checkpoint-write failure — nothing changes at all.
    pub fn commit(&mut self, batch: Batch) -> (r: Result<(), ImportError>)
        ensures
            r is Ok <==> commit_refusal(
                old(self)@,
                batch.first_header,
                batch.first_receipt,
                batch.checkpoint.processed_through,
            ) is None,
            r matches Err(e) ==> Some(e) == commit_refusal(
                old(self)@,
                batch.first_header,
                batch.first_receipt,
                batch.checkpoint.processed_through,
            ),
            r is Err ==> *final(self) == *old(self),
            r is Ok ==> final(self)@ == committed(
                old(self)@,
                batch.headers@,
                batch.bodies@,
                batch.receipts@,
                batch.checkpoint,
            ),
            r is Ok && old(self)@.wf() && batch_extends(batch, old(self)@) ==> final(self)@.wf(),
    {
        if self.fail_checkpoint_writes {
            return Err(ImportError::CheckpointWriteFailed);
        }
        let header_count = self.header_count();
        if batch.first_header != header_count {
            return Err(ImportError::StaleBatch { expected: header_count, got: batch.first_header });
        }
        let receipt_count = self.receipt_count();
        if batch.first_receipt != receipt_count {
            return Err(
                ImportError::StaleBatch { expected: receipt_count, got: batch.first_receipt },
            );
        }
        match self.checkpoint {
            Some(c) if batch.checkpoint.processed_through < c.processed_through => {
                return Err(
                    ImportError::CheckpointRewound {
                        have: c.processed_through,
                        new: batch.checkpoint.processed_through,
                    },
                );
            },
            _ => {},
        }
        let ghost pre = self@;
        let mut batch = batch;
        let ghost staged = batch;
        self.headers.append(&mut batch.headers);
        self.bodies.append(&mut batch.bodies);
        self.receipts.append(&mut batch.receipts);
        self.checkpoint = Some(batch.checkpoint);
        proof {
            if pre.wf() && batch_extends(staged, pre) {
                lemma_committed_wf(pre, staged.headers@, staged.bodies@, staged.receipts@, staged.checkpoint);
            }
        }
        Ok(())
    }

    /// Merges collected hash-index entries into the persistent index;
    /// the terminal pass of a run commits its collector through this.
    pub fn commit_hash_index(&mut self, entries: Vec<HashIndexEntry>)
        ensures
            final(self)@ == (StoreModel {
                hash_index: old(self)@.hash_index + entries@,
                ..old(self)@
            }),
            old(self)@.wf() && index_consistent(old(self)@.hash_index + entries@, old(self)@.headers)
                ==> final(self)@.wf(),
    {
        let mut entries = entries;
        self.hash_index.append(&mut entries);
    }
}

/// Staged entries that coherently extend a well-formed store leave a
/// well-formed store behind when committed.
pub proof fn lemma_committed_wf(
    m: StoreModel,
    headers: Seq<HeaderEntry>,
    bodies: Seq<BodyEntry>,
    receipts: Seq<Receipt>,
    checkpoint: Checkpoint,
)
    requires
        m.wf(),
        extends_ok(m, headers, bodies, receipts, checkpoint),
    ensures
        committed(m, headers, bodies, receipts, checkpoint).wf(),
{
    let c = committed(m, headers, bodies, receipts, checkpoint);
    lemma_total_txs_concat(m.bodies, bodies);
    assert(td_linked(0, c.headers)) by {
        assert forall|i: int| 0 <= i < c.headers.len() implies (
        #[trigger] c.headers[i]).total_difficulty.as_int() == (
        if i == 0 {
            0
        } else {
            c.headers[i - 1].total_difficulty.as_int()
        }) + c.headers[i].difficulty.as_int() by {
            if i < m.headers.len() {
                assert(c.headers[i] == m.headers[i]);
                if i > 0 {
                    assert(c.headers[i - 1] == m.headers[i - 1]);
                }
            } else {
                let j = i - m.headers.len();
                assert(c.headers[i] == headers[j]);
                assert(headers[j].total_difficulty.as_int() == (
                if j == 0 {
                    top_td(m.headers)
                } else {
                    headers[j - 1].total_difficulty.as_int()
                }) + headers[j].difficulty.as_int());
                if j > 0 {
                    assert(c.headers[i - 1] == headers[j - 1]);
                }
            }
        }
    }
    assert(bodies_linked(0, c.bodies)) by {
        assert forall|i: int| 0 <= i < c.bodies.len() implies (#[trigger] c.bodies[i]).first_tx
            == 0 + total_txs(c.bodies.take(i)) by {
            if i < m.bodies.len() {
                assert(c.bodies[i] == m.bodies[i]);
                assert(c.bodies.take(i) =~= m.bodies.take(i));
            } else {
                let j = i - m.bodies.len();
                assert(c.bodies[i] == bodies[j]);
                assert(bodies[j].first_tx == total_txs(m.bodies) + total_txs(
                    bodies.take(j),
                ));
                assert(c.bodies.take(i) =~= m.bodies + bodies.take(j));
                lemma_total_txs_concat(m.bodies, bodies.take(j));
            }
        }
    }
    assert(total_txs(c.bodies) <= u64::MAX) by {
        assert(c.bodies =~= m.bodies + bodies);
    }
    assert(index_consistent(c.hash_index, c.headers)) by {
        assert forall|i: int| 0 <= i < c.hash_index.len() implies (
        #[trigger] c.hash_index[i]).number < c.headers.len() && c.hash_index[i].hash
            == c.headers[c.hash_index[i].number as int].hash by {
            assert(c.hash_index[i] == m.hash_index[i]);
            assert(c.headers[c.hash_index[i].number as int]
                == m.headers[c.hash_index[i].number as int]);
        }
    }
}

/// A run of bodies never records a negative transaction count.
pub proof fn lemma_total_txs_nonneg(s: Seq<BodyEntry>)
    ensures
        total_txs(s) >= 0,
    decreases s.len(),
{
    if s.len() > 0 {
        lemma_total_txs_nonneg(s.drop_last());
    }
}

/// Transaction counts add up across concatenated body runs.
pub proof fn lemma_total_txs_concat(a: Seq<BodyEntry>, b: Seq<BodyEntry>)
    ensures
        total_txs(a + b) == total_txs(a) + total_txs(b),
    decreases b.len(),
{
    if b.len() == 0 {
        assert(a + b =~= a);
    } else {
        lemma_total_txs_concat(a, b.drop_last());
        assert((a + b).drop_last() =~= a + b.drop_last());
        assert((a + b).last() == b.last());
    }
}

} // verus!

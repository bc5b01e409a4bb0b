//! The hash-index collector: gathers `(hash, number)` pairs in memory
//! while blocks stream by, to be flushed into the store's queryable
//! index once at the end of a run.

use vstd::prelude::*;

use crate::block::BlockHash;
use crate::store::HashIndexEntry;

verus! {

/// An in-memory collector of hash-index entries, in insertion order.
#[derive(Clone, Debug)]
pub struct HashCollector {
    pub entries: Vec<HashIndexEntry>,
}

impl View for HashCollector {
    type V = Seq<HashIndexEntry>;

    open spec fn view(&self) -> Seq<HashIndexEntry> {
        self.entries@
    }
}

impl HashCollector {
    /// An empty collector.
    pub fn new() -> (r: HashCollector)
        ensures
            r@ == Seq::<HashIndexEntry>::empty(),
    {
        let r = HashCollector { entries: Vec::new() };
        proof {
            assert(r@ =~= Seq::<HashIndexEntry>::empty());
        }
        r
    }

    /// Records one block's hash-to-number pair; exactly one insert is
    /// made per newly appended block.
    pub fn insert(&mut self, hash: BlockHash, number: u64)
        ensures
            final(self)@ == old(self)@.push(HashIndexEntry { hash, number }),
    {
        self.entries.push(HashIndexEntry { hash, number });
    }

    /// Takes over a batch's worth of entries in one move.
    pub fn absorb(&mut self, entries: Vec<HashIndexEntry>)
        ensures
            final(self)@ == old(self)@ + entries@,
    {
        let mut entries = entries;
        self.entries.append(&mut entries);
    }

    /// How many entries have been collected.
    pub fn len(&self) -> (r: usize)
        ensures
            r == self@.len(),
    {
        self.entries.len()
    }

    /// Hands the collected entries over for the final index build.
    pub fn into_entries(self) -> (r: Vec<HashIndexEntry>)
        ensures
            r@ == self@,
    {
        self.entries
    }
}

} // verus!

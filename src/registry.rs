//! The sink registry: live sinks under reusable identifiers, plus the queue of
//! identifiers that failed during the current pass and leave at the next one.
use crate::seqs::remove_first;
use crate::slots::{
    slab_contains, slab_entries, slab_get, slab_insert, slab_keys, slab_len, slab_new,
    slab_remove, slab_slots,
};
use slab::Slab;
use vstd::prelude::*;

verus! {

/// A registry of sinks, each stored as a `u64` handle under a sink identifier.
///
/// Identifiers freed by a removal are handed out again before new ones.
pub struct MultiWriter {
    subscribed: Slab<u64>,
    drop_list: Vec<usize>,
}

impl MultiWriter {
    /// The live sinks: each identifier with the handle stored under it.
    pub closed spec fn sinks(&self) -> Map<usize, u64> {
        slab_entries(self.subscribed)
    }

    /// How many identifiers have been handed out so far: every live one is
    /// below it, and a new identifier is taken at it only when none below is free.
    pub closed spec fn slots(&self) -> usize {
        slab_slots(self.subscribed)
    }

    /// Whether some identifier below `slots()` is free.
    pub open spec fn has_free_slot(&self) -> bool {
        exists|k: usize| k < self.slots() && !self.sinks().dom().contains(k)
    }

    /// Identifiers that failed and are removed at the start of the next pass.
    pub closed spec fn pending(&self) -> Seq<usize> {
        self.drop_list@
    }

    /// Finitely many live sinks, and each queued identifier is live and queued once.
    pub open spec fn wf(&self) -> bool {
        &&& self.sinks().dom().finite()
        &&& forall|k: usize| #[trigger] self.sinks().dom().contains(k) ==> k < self.slots()
        &&& self.pending().no_duplicates()
        &&& forall|i: int|
            0 <= i < self.pending().len() ==> self.sinks().dom().contains(#[trigger] self.pending()[i])
    }

    /// An empty registry.
    pub fn new() -> (r: MultiWriter)
        ensures
            r.wf(),
            r.sinks() == Map::<usize, u64>::empty(),
            r.pending() == Seq::<usize>::empty(),
            r.slots() == 0,
    {
        MultiWriter { subscribed: slab_new(), drop_list: Vec::new() }
    }

    /// Stores a sink handle and returns its identifier, one that no live sink
    /// has: a freed identifier if there is one, else the next new one.
    pub fn insert(&mut self, handle: u64) -> (r: usize)
        requires
            old(self).wf(),
            old(self).sinks().dom().len() < usize::MAX,
        ensures
            final(self).wf(),
            !old(self).sinks().dom().contains(r),
            final(self).sinks() == old(self).sinks().insert(r, handle),
            final(self).pending() == old(self).pending(),
            old(self).has_free_slot() ==> r < old(self).slots() && final(self).slots() == old(
                self,
            ).slots(),
            !old(self).has_free_slot() ==> r == old(self).slots() && final(self).slots() == r + 1,
    {
        let r = slab_insert(&mut self.subscribed, handle);
        proof {
            assert forall|j: int| 0 <= j < self.drop_list@.len() implies
                self.sinks().dom().contains(#[trigger] self.drop_list@[j]) by {
                assert(old(self).sinks().dom().contains(self.drop_list@[j]));
            }
        }
        r
    }

    /// Removes a live sink, returning its handle; if it was queued for removal
    /// it leaves the queue too.
    pub fn remove(&mut self, id: usize) -> (r: u64)
        requires
            old(self).wf(),
            old(self).sinks().dom().contains(id),
        ensures
            final(self).wf(),
            r == old(self).sinks()[id],
            final(self).sinks() == old(self).sinks().remove(id),
            final(self).pending() == old(self).pending().remove_value(id),
            final(self).slots() == old(self).slots(),
    {
        let h = slab_remove(&mut self.subscribed, id);
        remove_first(&mut self.drop_list, id);
        proof {
            assert forall|j: int| 0 <= j < self.drop_list@.len() implies
                self.sinks().dom().contains(#[trigger] self.drop_list@[j]) by {
                let y = self.drop_list@[j];
                assert(self.drop_list@.contains(y));
                let k = choose|k: int| 0 <= k < old(self).pending().len() && old(self).pending()[k] == y;
                assert(old(self).sinks().dom().contains(old(self).pending()[k]));
            }
        }
        h
    }

    /// The number of live sinks.
    pub fn len(&self) -> (r: usize)
        ensures
            r == self.sinks().dom().len(),
    {
        slab_len(&self.subscribed)
    }

    /// Whether no sink is live.
    pub fn is_empty(&self) -> (r: bool)
        requires
            self.wf(),
        ensures
            r == (self.sinks().dom().len() == 0),
    {
        slab_len(&self.subscribed) == 0
    }

    /// Whether `id` names a live sink.
    pub fn contains(&self, id: usize) -> (r: bool)
        ensures
            r == self.sinks().dom().contains(id),
    {
        slab_contains(&self.subscribed, id)
    }

    /// The handle stored under `id`, if it is live.
    pub fn get(&self, id: usize) -> (r: Option<u64>)
        ensures
            r == (if self.sinks().dom().contains(id) {
                Some(self.sinks()[id])
            } else {
                None
            }),
    {
        slab_get(&self.subscribed, id)
    }

    /// The live identifiers, in ascending order.
    pub fn ids(&self) -> (r: Vec<usize>)
        ensures
            forall|i: int, j: int| 0 <= i < j < r@.len() ==> r@[i] < r@[j],
            forall|k: usize| r@.contains(k) <==> self.sinks().dom().contains(k),
    {
        slab_keys(&self.subscribed)
    }

    /// The identifiers queued for removal, in the order they failed.
    pub fn queued(&self) -> (r: Vec<usize>)
        ensures
            r@ == self.pending(),
    {
        self.drop_list.clone()
    }

    /// Queues a live sink that failed during the current pass.
    pub(crate) fn mark_failed(&mut self, id: usize)
        requires
            old(self).wf(),
            old(self).sinks().dom().contains(id),
            !old(self).pending().contains(id),
        ensures
            final(self).wf(),
            final(self).sinks() == old(self).sinks(),
            final(self).pending() == old(self).pending().push(id),
            final(self).slots() == old(self).slots(),
    {
        self.drop_list.push(id);
        proof {
            assert forall|i: int| 0 <= i < self.drop_list@.len() implies
                self.sinks().dom().contains(#[trigger] self.drop_list@[i]) by {
                if i < old(self).drop_list@.len() {
                    assert(self.drop_list@[i] == old(self).drop_list@[i]);
                }
            }
        }
    }

    /// Removes every queued sink and empties the queue: the pass boundary.
    pub(crate) fn drain_pending(&mut self)
        requires
            old(self).wf(),
        ensures
            final(self).wf(),
            final(self).sinks() == old(self).sinks().remove_keys(old(self).pending().to_set()),
            final(self).pending() == Seq::<usize>::empty(),
            final(self).slots() == old(self).slots(),
    {
        let ghost start = self.sinks();
        let mut i: usize = 0;
        while i < self.drop_list.len()
            invariant
                0 <= i <= self.drop_list@.len(),
                self.drop_list@ == old(self).pending(),
                self.drop_list@.no_duplicates(),
                start == old(self).sinks(),
                start.dom().finite(),
                self.sinks().dom().finite(),
                self.slots() == old(self).slots(),
                forall|k: usize| #[trigger] self.sinks().dom().contains(k) ==> k < self.slots(),
                forall|j: int|
                    0 <= j < self.drop_list@.len() ==> start.dom().contains(#[trigger] self.drop_list@[j]),
                self.sinks() == start.remove_keys(self.drop_list@.subrange(0, i as int).to_set()),
            decreases self.drop_list@.len() - i,
        {
            let id = self.drop_list[i];
            let ghost done = self.drop_list@.subrange(0, i as int);
            assert(!done.contains(id)) by {
                if done.contains(id) {
                    let k = choose|k: int| 0 <= k < done.len() && done[k] == id;
                    assert(self.drop_list@[k] == self.drop_list@[i as int]);
                }
            }
            assert(done.to_set().contains(id) == done.contains(id));
            slab_remove(&mut self.subscribed, id);
            assert(self.drop_list@.subrange(0, i + 1) == done.push(id));
            assert(done.push(id).to_set() == done.to_set().insert(id)) by {
                done.lemma_push_to_set_commute(id);
            }
            assert(self.sinks() =~= start.remove_keys(done.push(id).to_set()));
            i = i + 1;
        }
        assert(self.drop_list@.subrange(0, i as int) == self.drop_list@);
        self.drop_list.clear();
    }
}

impl Default for MultiWriter {
    fn default() -> (r: MultiWriter)
        ensures
            r.wf(),
            r.sinks() == Map::<usize, u64>::empty(),
            r.pending() == Seq::<usize>::empty(),
            r.slots() == 0,
    {
        MultiWriter::new()
    }
}

} // verus!

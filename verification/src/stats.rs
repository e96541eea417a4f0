//! Per-stack statistics and the store that keeps them by stack hash.

use crate::callstack::StdCallstack;
use crate::paged::{PagedIndex, INDEX_MAX_VALUE};
use vstd::prelude::*;

verus! {

/// The counters of one call stack. All of them are cumulative; the bytes that
/// a stack retains are the difference of the bytes it allocated and freed.
#[derive(Debug)]
pub struct StackStats {
    pub stack: StdCallstack,
    pub allocated_bytes: u64,
    pub num_allocations: u64,
    pub freed_bytes: u64,
    pub num_frees: u64,
    /// An identifier of the context in which the stack was first seen, such
    /// as a tracing span, where one was attached.
    pub context: Option<u64>,
}

/// The counters of one call stack, as contracts see them.
pub struct StackStatsView {
    pub stack: Seq<u64>,
    pub allocated_bytes: u64,
    pub num_allocations: u64,
    pub freed_bytes: u64,
    pub num_frees: u64,
    pub context: Option<u64>,
}

impl View for StackStats {
    type V = StackStatsView;

    open spec fn view(&self) -> StackStatsView {
        StackStatsView {
            stack: self.stack@,
            allocated_bytes: self.allocated_bytes,
            num_allocations: self.num_allocations,
            freed_bytes: self.freed_bytes,
            num_frees: self.num_frees,
            context: self.context,
        }
    }
}

impl Clone for StackStats {
    fn clone(&self) -> (copy: Self)
        ensures
            copy@ == self@,
    {
        self.duplicate()
    }
}

impl StackStatsView {
    /// The counters of a stack that was just seen for the first time, with
    /// one allocation of `bytes` where `initial` gives them, else with none.
    pub open spec fn first(stack: Seq<u64>, initial: Option<u64>) -> StackStatsView {
        StackStatsView {
            stack,
            allocated_bytes: match initial {
                Some(bytes) => bytes,
                None => 0,
            },
            num_allocations: if initial is Some { 1 } else { 0 },
            freed_bytes: 0,
            num_frees: 0,
            context: None,
        }
    }

    /// The counters after one more allocation of `size` bytes.
    pub open spec fn after_alloc(self, size: u64) -> StackStatsView {
        StackStatsView {
            allocated_bytes: self.allocated_bytes.wrapping_add(size),
            num_allocations: self.num_allocations.wrapping_add(1),
            ..self
        }
    }

    /// The counters after one more free of `size` bytes.
    pub open spec fn after_free(self, size: u64) -> StackStatsView {
        StackStatsView {
            freed_bytes: self.freed_bytes.wrapping_add(size),
            num_frees: self.num_frees.wrapping_add(1),
            ..self
        }
    }

    /// The counters after one of the stack's allocations changed its size
    /// from `old_size` to `new_size`: the allocated bytes follow, the counts
    /// of allocations and frees stay.
    pub open spec fn after_resize(self, old_size: u64, new_size: u64) -> StackStatsView {
        StackStatsView {
            allocated_bytes: if new_size > old_size {
                self.allocated_bytes.wrapping_add((new_size - old_size) as u64)
            } else {
                self.allocated_bytes.wrapping_sub((old_size - new_size) as u64)
            },
            ..self
        }
    }

    /// The bytes that the stack retains: allocated minus freed, and zero
    /// where more was freed than allocated.
    pub open spec fn retained(self) -> u64 {
        if self.allocated_bytes >= self.freed_bytes {
            (self.allocated_bytes - self.freed_bytes) as u64
        } else {
            0
        }
    }
}

impl StackStats {
    /// The counters of a stack that was just seen for the first time.
    pub fn new(stack: StdCallstack, initial_alloc_bytes: Option<u64>) -> (stats: Self)
        ensures
            stats@ == StackStatsView::first(stack@, initial_alloc_bytes),
    {
        let (allocated_bytes, num_allocations): (u64, u64) = match initial_alloc_bytes {
            Some(bytes) => (bytes, 1),
            None => (0, 0),
        };
        StackStats {
            stack,
            allocated_bytes,
            num_allocations,
            freed_bytes: 0,
            num_frees: 0,
            context: None,
        }
    }

    /// The profiled bytes that this stack still holds.
    pub fn retained_profiled_bytes(&self) -> (bytes: u64)
        ensures
            bytes == self@.retained(),
    {
        if self.allocated_bytes >= self.freed_bytes {
            self.allocated_bytes - self.freed_bytes
        } else {
            0
        }
    }

    /// A copy with the same stack and counters.
    pub fn duplicate(&self) -> (copy: Self)
        ensures
            copy@ == self@,
    {
        StackStats {
            stack: self.stack.duplicate(),
            allocated_bytes: self.allocated_bytes,
            num_allocations: self.num_allocations,
            freed_bytes: self.freed_bytes,
            num_frees: self.num_frees,
            context: self.context,
        }
    }
}

/// One entry of the store.
struct Slot {
    hash: u64,
    stats: StackStats,
}

/// The statistics of every stack seen so far, by stack hash. Entries are
/// made on the first sampled allocation of a stack, change in place after
/// that, and leave only when the store is cleared.
pub struct StatsStore {
    index: PagedIndex,
    slots: Vec<Slot>,
}

impl StatsStore {
    /// The index leads from each hash to the slot that holds it, and every
    /// slot is reached from its hash.
    pub closed spec fn wf(&self) -> bool {
        &&& self.index.wf()
        &&& self.slots.len() <= INDEX_MAX_VALUE
        &&& forall|hash: u64| #[trigger]
            self.index@.contains_key(hash) ==> {
                &&& self.index@[hash] < self.slots.len()
                &&& self.slots[self.index@[hash] as int].hash == hash
            }
        &&& forall|i: int|
            0 <= i < self.slots.len() ==> {
                &&& self.index@.contains_key(#[trigger] self.slots[i].hash)
                &&& self.index@[self.slots[i].hash] == i
            }
    }

    /// The counters kept for each stack hash.
    pub closed spec fn view(&self) -> Map<u64, StackStatsView> {
        Map::new(
            |hash: u64| self.index@.contains_key(hash),
            |hash: u64| self.slots[self.index@[hash] as int].stats@,
        )
    }

    /// The hashes in the store, in the order in which they came.
    pub closed spec fn hashes(&self) -> Seq<u64> {
        Seq::new(self.slots.len() as nat, |i: int| self.slots[i].hash)
    }

    /// Whether the store can take one more stack.
    pub open spec fn has_room(&self) -> bool {
        self.hashes().len() < INDEX_MAX_VALUE
    }

    /// The listed hashes are those of the view, each once.
    pub proof fn lemma_hashes(&self)
        requires
            self.wf(),
        ensures
            self.hashes().no_duplicates(),
            self.hashes().to_set() == self@.dom(),
            self@.dom().finite(),
            self@.dom().len() == self.hashes().len(),
    {
        let hashes = self.hashes();
        assert(hashes.to_set() =~= self@.dom()) by {
            assert forall|hash: u64| self@.dom().contains(hash) implies hashes.to_set().contains(
                hash,
            ) by {
                assert(hashes[self.index@[hash] as int] == hash);
            }
        }
        hashes.unique_seq_to_set();
    }

    /// An empty store.
    pub fn new() -> (store: Self)
        ensures
            store.wf(),
            store@ == Map::<u64, StackStatsView>::empty(),
            store.hashes() == Seq::<u64>::empty(),
    {
        StatsStore { index: PagedIndex::new(), slots: Vec::new() }
    }

    /// The number of stacks in the store.
    pub fn len(&self) -> (count: usize)
        ensures
            count == self.hashes().len(),
    {
        self.slots.len()
    }

    /// Whether the store knows `hash`.
    pub fn contains(&self, hash: u64) -> (present: bool)
        requires
            self.wf(),
        ensures
            present == self@.contains_key(hash),
    {
        self.index.get(hash).is_some()
    }

    /// The slot that holds `hash`, if any.
    fn slot_of(&self, hash: u64) -> (slot: Option<usize>)
        requires
            self.wf(),
        ensures
            slot is Some <==> self@.contains_key(hash),
            slot matches Some(i) ==> i < self.slots.len() && self.slots[i as int].hash == hash
                && self.index@[hash] == i,
    {
        match self.index.get(hash) {
            Some(i) => Some(i as usize),
            None => None,
        }
    }

    /// The hash at position `i` of the listing.
    pub fn hash_at(&self, i: usize) -> (hash: u64)
        requires
            i < self.hashes().len(),
        ensures
            hash == self.hashes()[i as int],
    {
        self.slots[i].hash
    }

    /// A copy of the counters kept for `hash`, if the store knows it.
    pub fn get(&self, hash: u64) -> (found: Option<StackStats>)
        requires
            self.wf(),
        ensures
            found is Some <==> self@.contains_key(hash),
            found matches Some(stats) ==> stats@ == self@[hash],
    {
        match self.slot_of(hash) {
            Some(i) => Some(self.slots[i].stats.duplicate()),
            None => None,
        }
    }

    /// Counts one sampled allocation of `size` bytes for the stack with the
    /// given hash. A stack that the store knows gets its counters raised; a
    /// new one enters with `stack` and this one allocation, if there is room.
    pub fn upsert(&mut self, hash: u64, stack: StdCallstack, size: u64)
        requires
            old(self).wf(),
        ensures
            final(self).wf(),
            final(self)@ == upserted(old(self)@, hash, stack@, size, old(self).has_room()),
            final(self).hashes() == if old(self)@.contains_key(hash) || !old(self).has_room() {
                old(self).hashes()
            } else {
                old(self).hashes().push(hash)
            },
    {
        match self.slot_of(hash) {
            Some(i) => {
                let slot = &mut self.slots[i];
                slot.stats.allocated_bytes = slot.stats.allocated_bytes.wrapping_add(size);
                slot.stats.num_allocations = slot.stats.num_allocations.wrapping_add(1);
            },
            None => {
                if (self.slots.len() as u64) < INDEX_MAX_VALUE {
                    let position: u64 = self.slots.len() as u64;
                    self.slots.push(Slot { hash, stats: StackStats::new(stack, Some(size)) });
                    self.index.insert(hash, position);
                }
            },
        }
    }

    /// Counts one free of `size` bytes for the stack with the given hash. A
    /// hash that the store does not know is passed over.
    pub fn update_on_free(&mut self, hash: u64, size: u64)
        requires
            old(self).wf(),
        ensures
            final(self).wf(),
            final(self)@ == freed(old(self)@, hash, size),
            final(self).hashes() == old(self).hashes(),
    {
        match self.slot_of(hash) {
            Some(i) => {
                let slot = &mut self.slots[i];
                slot.stats.freed_bytes = slot.stats.freed_bytes.wrapping_add(size);
                slot.stats.num_frees = slot.stats.num_frees.wrapping_add(1);
            },
            None => {},
        }
    }

    /// Follows a change of size, from `old_size` to `new_size`, of one
    /// allocation of the stack with the given hash. A hash that the store
    /// does not know is passed over.
    pub fn update_on_resize(&mut self, hash: u64, old_size: u64, new_size: u64)
        requires
            old(self).wf(),
        ensures
            final(self).wf(),
            final(self)@ == resized(old(self)@, hash, old_size, new_size),
            final(self).hashes() == old(self).hashes(),
    {
        match self.slot_of(hash) {
            Some(i) => {
                let slot = &mut self.slots[i];
                if new_size > old_size {
                    slot.stats.allocated_bytes = slot.stats.allocated_bytes.wrapping_add(
                        new_size - old_size,
                    );
                } else {
                    slot.stats.allocated_bytes = slot.stats.allocated_bytes.wrapping_sub(
                        old_size - new_size,
                    );
                }
            },
            None => {},
        }
    }

    /// The counters at position `i` of the listing.
    pub fn stats_at(&self, i: usize) -> (stats: &StackStats)
        requires
            self.wf(),
            i < self.hashes().len(),
        ensures
            self@.contains_key(self.hashes()[i as int]),
            stats@ == self@[self.hashes()[i as int]],
    {
        &self.slots[i].stats
    }

    /// Forgets every stack.
    pub fn clear(&mut self)
        ensures
            final(self).wf(),
            final(self)@ == Map::<u64, StackStatsView>::empty(),
            final(self).hashes() == Seq::<u64>::empty(),
    {
        self.index.clear();
        self.slots = Vec::new();
    }
}

/// The store's contents after one free of `size` bytes by the stack with the
/// given hash.
pub open spec fn freed(stats: Map<u64, StackStatsView>, hash: u64, size: u64) -> Map<
    u64,
    StackStatsView,
> {
    if stats.contains_key(hash) {
        stats.insert(hash, stats[hash].after_free(size))
    } else {
        stats
    }
}

/// The store's contents after an allocation of the stack with the given hash
/// changed its size.
pub open spec fn resized(
    stats: Map<u64, StackStatsView>,
    hash: u64,
    old_size: u64,
    new_size: u64,
) -> Map<u64, StackStatsView> {
    if stats.contains_key(hash) {
        stats.insert(hash, stats[hash].after_resize(old_size, new_size))
    } else {
        stats
    }
}

/// The store's contents after one sampled allocation of `size` bytes by the
/// stack with the given hash.
pub open spec fn upserted(
    stats: Map<u64, StackStatsView>,
    hash: u64,
    stack: Seq<u64>,
    size: u64,
    has_room: bool,
) -> Map<u64, StackStatsView> {
    if stats.contains_key(hash) {
        stats.insert(hash, stats[hash].after_alloc(size))
    } else if has_room {
        stats.insert(hash, StackStatsView::first(stack, Some(size)))
    } else {
        stats
    }
}

} // verus!

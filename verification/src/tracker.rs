//! The outstanding sampled allocations, by address.

use crate::paged::{clamped, PagedIndex, INDEX_MAX_VALUE};
use vstd::prelude::*;

verus! {

/// What is remembered of a sampled allocation while it is live: the hash of
/// the call stack that made it, and when it was made, in milliseconds since
/// the epoch.
#[derive(Copy, Debug, Clone, PartialEq, Eq, Structural)]
pub struct AllocInfo(pub u64, pub u64);

impl AllocInfo {
    /// The record of an allocation made by the stack with the given hash at
    /// the given time, in milliseconds since the epoch.
    pub fn new(stack_hash: u64, allocation_timestamp: u64) -> (info: Self)
        ensures
            info == AllocInfo(stack_hash, allocation_timestamp),
    {
        AllocInfo(stack_hash, allocation_timestamp)
    }

    /// The hash of the stack that made the allocation.
    pub fn stack_hash(&self) -> (hash: u64)
        ensures
            hash == self.0,
    {
        self.0
    }

    /// When the allocation was made, in milliseconds since the epoch.
    pub fn allocation_timestamp_millis(&self) -> (millis: u64)
        ensures
            millis == self.1,
    {
        self.1
    }

    /// Whether the tracker can hold this record: both numbers are within
    /// what its maps can store.
    pub open spec fn storable(&self) -> bool {
        self.0 <= INDEX_MAX_VALUE && self.1 <= INDEX_MAX_VALUE
    }
}

/// The live sampled allocations. An address is in the tracker exactly while
/// it stands for a sampled allocation that was neither freed nor moved.
pub struct Tracker {
    origins: PagedIndex,
    stamps: PagedIndex,
}

impl Tracker {
    /// The two indexes are sound and hold the same addresses.
    pub closed spec fn wf(&self) -> bool {
        &&& self.origins.wf()
        &&& self.stamps.wf()
        &&& self.origins@.dom() == self.stamps@.dom()
    }

    /// The record kept for each tracked address.
    pub closed spec fn view(&self) -> Map<u64, AllocInfo> {
        Map::new(
            |addr: u64| self.origins@.contains_key(addr),
            |addr: u64| AllocInfo(self.origins@[addr], self.stamps@[addr]),
        )
    }

    /// A well-formed tracker holds finitely many addresses, each with a
    /// record that it can store.
    pub proof fn lemma_wf(&self)
        requires
            self.wf(),
        ensures
            self@.dom().finite(),
            forall|addr: u64| #[trigger] self@.contains_key(addr) ==> self@[addr].storable(),
    {
        self.origins.lemma_wf();
        self.stamps.lemma_wf();
        assert(self@.dom() =~= self.origins@.dom());
        assert forall|addr: u64| #[trigger] self@.contains_key(addr) implies self@[addr].storable() by {
            assert(self.origins@.contains_key(addr));
            assert(self.stamps@.dom().contains(addr));
        }
    }

    /// An empty tracker.
    pub fn new() -> (tracker: Self)
        ensures
            tracker.wf(),
            tracker@ == Map::<u64, AllocInfo>::empty(),
    {
        let tracker = Tracker { origins: PagedIndex::new(), stamps: PagedIndex::new() };
        assert(tracker@ =~= Map::<u64, AllocInfo>::empty());
        tracker
    }

    /// Records `info` under `addr`, in place of any earlier record.
    pub fn insert(&mut self, addr: u64, info: AllocInfo)
        requires
            old(self).wf(),
            info.storable(),
        ensures
            final(self).wf(),
            final(self)@ == old(self)@.insert(addr, info),
    {
        self.origins.insert(addr, info.0);
        self.stamps.insert(addr, info.1);
        assert(self@ =~= old(self)@.insert(addr, info));
    }

    /// Forgets `addr` and hands back its record, if it had one.
    pub fn remove(&mut self, addr: u64) -> (removed: Option<AllocInfo>)
        requires
            old(self).wf(),
        ensures
            final(self).wf(),
            final(self)@ == old(self)@.remove(addr),
            removed == if old(self)@.contains_key(addr) {
                Some(old(self)@[addr])
            } else {
                None
            },
    {
        let origin = self.origins.remove(addr);
        let stamp = self.stamps.remove(addr);
        assert(self@ =~= old(self)@.remove(addr));
        assert(old(self).origins@.dom().contains(addr) == old(self).stamps@.dom().contains(addr));
        match (origin, stamp) {
            (Some(hash), Some(millis)) => Some(AllocInfo(hash, millis)),
            _ => None,
        }
    }

    /// Whether `addr` is tracked.
    pub fn contains(&self, addr: u64) -> (present: bool)
        requires
            self.wf(),
        ensures
            present == self@.contains_key(addr),
    {
        self.origins.contains(addr)
    }

    /// The record kept for `addr`, if any.
    pub fn get(&self, addr: u64) -> (found: Option<AllocInfo>)
        requires
            self.wf(),
        ensures
            found == if self@.contains_key(addr) {
                Some(self@[addr])
            } else {
                None
            },
    {
        let origin = self.origins.get(addr);
        let stamp = self.stamps.get(addr);
        assert(self.origins@.dom().contains(addr) == self.stamps@.dom().contains(addr));
        match (origin, stamp) {
            (Some(hash), Some(millis)) => Some(AllocInfo(hash, millis)),
            _ => None,
        }
    }

    /// Moves the record of `from` to `to`, keeping its contents. Returns the
    /// record that moved; without a record under `from` nothing changes.
    pub fn rekey(&mut self, from: u64, to: u64) -> (moved: Option<AllocInfo>)
        requires
            old(self).wf(),
        ensures
            final(self).wf(),
            final(self)@ == rekeyed(old(self)@, from, to),
            moved == if old(self)@.contains_key(from) {
                Some(old(self)@[from])
            } else {
                None
            },
    {
        proof {
            old(self).lemma_wf();
        }
        match self.remove(from) {
            Some(info) => {
                self.insert(to, info);
                Some(info)
            },
            None => None,
        }
    }

    /// The number of tracked addresses, or the largest `usize` where there
    /// are more.
    pub fn len(&self) -> (count: usize)
        requires
            self.wf(),
        ensures
            count == clamped(self@.dom().len()),
    {
        assert(self@.dom() =~= self.origins@.dom());
        self.origins.len()
    }

    /// Forgets every address.
    pub fn clear(&mut self)
        ensures
            final(self).wf(),
            final(self)@ == Map::<u64, AllocInfo>::empty(),
    {
        self.origins.clear();
        self.stamps.clear();
        assert(self@ =~= Map::<u64, AllocInfo>::empty());
    }
}

/// The records after the one under `from`, if there is one, has moved to `to`.
pub open spec fn rekeyed(records: Map<u64, AllocInfo>, from: u64, to: u64) -> Map<u64, AllocInfo> {
    if records.contains_key(from) {
        records.remove(from).insert(to, records[from])
    } else {
        records
    }
}

} // verus!

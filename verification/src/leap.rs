//! The concurrent hash map of the `leapfrog` crate, as this library uses it:
//! from `u64` keys to `u64` values, owned by one holder at a time, and only
//! as far as the map never has to move its table.
//!
//! Every function here hands its work to `leapfrog`; the contracts say what
//! the map does when no other thread works on it at the same time, which the
//! exclusive borrow of the changing operations guarantees.
//!
//! A map of `leapfrog` moves to another table when an insertion finds every
//! one of the cells that it probes taken, at most `LEAP_PAGE_KEYS` of them.
//! A cell, once taken by a key, stays with that key, also when the key is
//! removed: it then holds no value, and takes one again when the key comes
//! back. The moves are where the map's own checks can fail under a single
//! owner, so this library keeps every map below them: a map is made with at
//! least `LEAP_MIN_CELLS` cells, and at most `LEAP_PAGE_KEYS` keys ever take
//! a cell in it. With fewer cells taken than an insertion probes, it always
//! finds a free one, and the table stays where it is.
//!
//! The map keeps the hash 0 for a free cell, and it adds to a key's hash as
//! it probes. `hash_in_reach` leaves out the hashes that are 0 or so close to
//! where the sum would carry that a probe could get there; keys with such a
//! hash are not given to the map.

use allocator_api2::alloc::System;
use leapfrog::LeapMap;
use std::collections::hash_map::DefaultHasher;
use std::hash::BuildHasherDefault;
use vstd::prelude::*;

verus! {

/// A `leapfrog::LeapMap` with `u64` keys and values, std's default hasher,
/// and the system allocator for the map's own memory. The map's allocator
/// parameter is bound by a trait that Verus does not know, so the map stands
/// behind this struct, and Verus sees of it only what `leap_contents`,
/// `leap_taken` and `leap_hash` name.
#[verifier::external_body]
pub struct LeapIndex {
    inner: LeapMap<u64, u64, BuildHasherDefault<DefaultHasher>, System>,
}

/// What a map holds: the value stored under each key.
pub uninterp spec fn leap_contents(m: LeapIndex) -> Map<u64, u64>;

/// The keys that have a cell in the map: those that it holds, and those that
/// it held and that were removed.
pub uninterp spec fn leap_taken(m: LeapIndex) -> Set<u64>;

/// The hash under which a map files a key.
pub uninterp spec fn leap_hash(m: LeapIndex, key: u64) -> usize;

/// The largest value that the map can store. `leapfrog` keeps the two values
/// above it for its own marks.
pub const LEAP_MAX_VALUE: u64 = 0xffff_ffff_ffff_fffd;

/// The most keys that this library lets take a cell in one map: the number
/// of cells that an insertion probes at most.
pub const LEAP_PAGE_KEYS: usize = 128;

/// The fewest cells that a map is made with.
pub const LEAP_MIN_CELLS: usize = 256;

/// The most cells that a map is made with.
pub const LEAP_MAX_CELLS: usize = 0x400;

/// Whether a key with this hash can be given to a map: the hash is not 0, and
/// its lowest 31 bits are so far below their largest value that no probe,
/// which adds less than twice `LEAP_MAX_CELLS` to the hash, carries out of
/// them.
pub open spec fn hash_in_reach(hash: usize) -> bool {
    0 < hash % 0x8000_0000 < 0x8000_0000 - 0x1000
}

/// Tests whether a key with this hash can be given to a map.
pub fn in_reach(hash: usize) -> (reached: bool)
    ensures
        reached == hash_in_reach(hash),
{
    let low = hash % 0x8000_0000;
    0 < low && low < 0x8000_0000 - 0x1000
}

/// What a lookup of `key` gives in a map that holds `contents`.
pub open spec fn lookup(contents: Map<u64, u64>, key: u64) -> Option<u64> {
    if contents.contains_key(key) {
        Some(contents[key])
    } else {
        None
    }
}

/// `LeapMap::with_capacity_and_hasher_in` with the default hasher and the
/// system allocator: the new map has room for `cells` cells, rounded up to a
/// power of two, and holds nothing.
#[verifier::external_body]
pub(crate) fn leap_new(cells: usize) -> (fresh: LeapIndex)
    requires
        LEAP_MIN_CELLS <= cells <= LEAP_MAX_CELLS,
    ensures
        leap_contents(fresh) == (Map::<u64, u64>::empty()),
        leap_taken(fresh) == (Set::<u64>::empty()),
{
    LeapIndex { inner: LeapMap::with_capacity_and_hasher_in(cells, Default::default(), System) }
}

/// `LeapMap::hash_usize`: the hash under which the map files `key`.
#[verifier::external_body]
pub(crate) fn leap_hash_of(m: &LeapIndex, key: u64) -> (hash: usize)
    ensures
        hash == leap_hash(*m, key),
{
    m.inner.hash_usize(&key)
}

/// `LeapMap::insert`: stores `value` under `key`, in place of what was
/// stored there, if anything. The two values above `LEAP_MAX_VALUE` cannot be
/// stored. The key has its cell already, or fewer than `LEAP_PAGE_KEYS`
/// cells are taken, so that a free cell is found among those probed. The map
/// files every key as before.
#[verifier::external_body]
pub(crate) fn leap_insert(m: &mut LeapIndex, key: u64, value: u64)
    requires
        value <= LEAP_MAX_VALUE,
        hash_in_reach(leap_hash(*old(m), key)),
        leap_taken(*old(m)).finite(),
        leap_taken(*old(m)).contains(key) || leap_taken(*old(m)).len() < LEAP_PAGE_KEYS,
    ensures
        leap_contents(*final(m)) == leap_contents(*old(m)).insert(key, value),
        leap_taken(*final(m)) == leap_taken(*old(m)).insert(key),
        forall|other: u64| #[trigger] leap_hash(*final(m), other) == leap_hash(*old(m), other),
{
    m.inner.insert(key, value);
}

/// `LeapMap::remove`: takes `key` out of the map and hands back the value
/// that was stored under it, if any. The key keeps its cell. The map files
/// every key as before.
#[verifier::external_body]
pub(crate) fn leap_remove(m: &mut LeapIndex, key: u64) -> (previous: Option<u64>)
    requires
        hash_in_reach(leap_hash(*old(m), key)),
    ensures
        leap_contents(*final(m)) == leap_contents(*old(m)).remove(key),
        leap_taken(*final(m)) == leap_taken(*old(m)),
        previous == lookup(leap_contents(*old(m)), key),
        forall|other: u64| #[trigger] leap_hash(*final(m), other) == leap_hash(*old(m), other),
{
    m.inner.remove(&key)
}

/// `LeapMap::get`, followed by `Ref::value`: the value stored under `key`,
/// if any.
#[verifier::external_body]
pub(crate) fn leap_get(m: &LeapIndex, key: u64) -> (found: Option<u64>)
    requires
        hash_in_reach(leap_hash(*m, key)),
    ensures
        found == lookup(leap_contents(*m), key),
{
    match m.inner.get(&key) {
        Some(mut cell) => cell.value(),
        None => None,
    }
}

/// `LeapMap::len`: the number of keys that the map holds. `leapfrog` counts
/// the cells with a value anew at each call.
#[verifier::external_body]
pub(crate) fn leap_len(m: &LeapIndex) -> (count: usize)
    ensures
        leap_contents(*m).dom().finite() ==> count == leap_contents(*m).dom().len(),
{
    m.inner.len()
}

} // verus!

//! A map from `u64` keys to `u64` values of any size, made of `leapfrog`
//! maps that each stay within what `leap` allows.
//!
//! The keys lie in pages. A page is one `leapfrog` map in which at most
//! `LEAP_PAGE_KEYS` keys ever take a cell. New keys go to the last page; a
//! page that has given all its cells and holds no key any more is given up. A key whose hash a page
//! cannot take lies in a list beside the pages.

use crate::leap::{
    hash_in_reach, in_reach, leap_contents, leap_get, leap_hash, leap_hash_of, leap_insert,
    leap_len, leap_new, leap_remove, leap_taken, lookup, LeapIndex, LEAP_MAX_VALUE,
    LEAP_MIN_CELLS, LEAP_PAGE_KEYS,
};
use vstd::prelude::*;
use vstd::relations::injective_on;
use vstd::set_lib::*;

verus! {

/// The largest value that a paged index can store.
pub const INDEX_MAX_VALUE: u64 = LEAP_MAX_VALUE;

/// A number of keys as a `usize`: the number itself, or the largest `usize`
/// where the number is larger.
pub open spec fn clamped(n: nat) -> usize {
    if n <= usize::MAX {
        n as usize
    } else {
        usize::MAX
    }
}

/// A finite set of `u64` keys has at most 2^64 of them.
proof fn lemma_keys_bounded(keys: Set<u64>)
    requires
        keys.finite(),
    ensures
        keys.len() <= 0x1_0000_0000_0000_0000,
{
    let as_int = |key: u64| key as int;
    let range = set_int_range(0, 0x1_0000_0000_0000_0000);
    lemma_int_range(0, 0x1_0000_0000_0000_0000);
    assert(injective_on(as_int, keys));
    lemma_map_size(keys, keys.map(as_int), as_int);
    lemma_len_subset(keys.map(as_int), range);
}

/// The few keys that no page can take, each with its value.
struct SideList {
    entries: Vec<(u64, u64)>,
}

impl View for SideList {
    type V = Map<u64, u64>;

    closed spec fn view(&self) -> Map<u64, u64> {
        Map::new(
            |key: u64| exists|j: int| 0 <= j < self.entries.len() && (#[trigger] self.entries[j]).0 == key,
            |key: u64|
                self.entries[choose|j: int|
                    0 <= j < self.entries.len() && (#[trigger] self.entries[j]).0 == key].1,
        )
    }
}

impl SideList {
    /// No key stands in the list twice.
    spec fn wf(&self) -> bool {
        forall|j: int, l: int|
            0 <= j < l < self.entries.len() ==> (#[trigger] self.entries[j]).0
                != (#[trigger] self.entries[l]).0
    }

    /// The entry at `j` is what the view has for its key.
    proof fn lemma_entry(&self, j: int)
        requires
            self.wf(),
            0 <= j < self.entries.len(),
        ensures
            self@.contains_key(self.entries[j].0),
            self@[self.entries[j].0] == self.entries[j].1,
    {
        let key = self.entries[j].0;
        let at = choose|l: int| 0 <= l < self.entries.len() && (#[trigger] self.entries[l]).0 == key;
        if at < j {
            assert(self.entries[at].0 != self.entries[j].0);
        } else if j < at {
            assert(self.entries[j].0 != self.entries[at].0);
        }
    }

    fn new() -> (list: Self)
        ensures
            list.wf(),
            list@ == Map::<u64, u64>::empty(),
    {
        let list = SideList { entries: Vec::new() };
        assert(list@ =~= Map::<u64, u64>::empty());
        list
    }

    /// The position of `key`, if it stands in the list.
    fn position(&self, key: u64) -> (found: Option<usize>)
        requires
            self.wf(),
        ensures
            found is Some <==> self@.contains_key(key),
            found matches Some(j) ==> j < self.entries.len() && self.entries[j as int].0 == key
                && self@[key] == self.entries[j as int].1,
    {
        let mut j: usize = 0;
        while j < self.entries.len()
            invariant
                self.wf(),
                j <= self.entries.len(),
                forall|before: int| 0 <= before < j ==> (#[trigger] self.entries[before]).0 != key,
            decreases self.entries.len() - j,
        {
            if self.entries[j].0 == key {
                proof {
                    self.lemma_entry(j as int);
                }
                return Some(j);
            }
            j += 1;
        }
        None
    }

    /// Stores `value` under `key`, in place of what was stored there.
    fn put(&mut self, key: u64, value: u64)
        requires
            old(self).wf(),
        ensures
            final(self).wf(),
            final(self)@ == old(self)@.insert(key, value),
    {
        let _ = self.take(key);
        let ghost taken = *self;
        self.entries.push((key, value));
        proof {
            let last = self.entries.len() - 1;
            assert forall|l: int| 0 <= l < last implies #[trigger] self.entries[l]
                == taken.entries[l] by {}
            assert forall|a: int, b: int| 0 <= a < b < self.entries.len() implies (
            #[trigger] self.entries[a]).0 != (#[trigger] self.entries[b]).0 by {
                if b == last {
                    assert(taken.entries[a] == self.entries[a]);
                    assert(taken@.contains_key(self.entries[a].0));
                }
            }
            assert forall|other: u64| self@.contains_key(other) == old(self)@.insert(
                key,
                value,
            ).contains_key(other) by {
                if self@.contains_key(other) && other != key {
                    let l = choose|l: int|
                        0 <= l < self.entries.len() && (#[trigger] self.entries[l]).0 == other;
                    assert(taken.entries[l].0 == other);
                }
                if taken@.contains_key(other) {
                    let l = choose|l: int|
                        0 <= l < taken.entries.len() && (#[trigger] taken.entries[l]).0 == other;
                    assert(self.entries[l].0 == other);
                }
                if other == key {
                    assert(self.entries[last].0 == key);
                }
            }
            assert forall|other: u64| self@.contains_key(other) implies self@[other] == old(
                self,
            )@.insert(key, value)[other] by {
                let l = choose|l: int|
                    0 <= l < self.entries.len() && (#[trigger] self.entries[l]).0 == other;
                self.lemma_entry(l);
                if l < last {
                    taken.lemma_entry(l);
                }
            }
            assert(self@ =~= old(self)@.insert(key, value));
        }
    }

    /// Takes `key` out of the list and hands back its value, if it stood
    /// there.
    fn take(&mut self, key: u64) -> (taken: Option<u64>)
        requires
            old(self).wf(),
        ensures
            final(self).wf(),
            final(self)@ == old(self)@.remove(key),
            taken == lookup(old(self)@, key),
    {
        match self.position(key) {
            Some(j) => {
                let entry = self.entries.remove(j);
                proof {
                    assert forall|l: int| 0 <= l < self.entries.len() implies #[trigger] self.entries[l]
                        == old(self).entries[if l < j { l } else { l + 1 }] by {}
                    assert forall|a: int, b: int| 0 <= a < b < self.entries.len() implies (
                    #[trigger] self.entries[a]).0 != (#[trigger] self.entries[b]).0 by {
                        let from_a = if a < j { a } else { a + 1 };
                        let from_b = if b < j { b } else { b + 1 };
                        assert(old(self).entries[from_a].0 != old(self).entries[from_b].0);
                    }
                    assert forall|other: u64| self@.contains_key(other) == old(self)@.remove(
                        key,
                    ).contains_key(other) by {
                        if self@.contains_key(other) {
                            let l = choose|l: int|
                                0 <= l < self.entries.len() && (#[trigger] self.entries[l]).0
                                    == other;
                            let from = if l < j { l } else { l + 1 };
                            assert(old(self).entries[from].0 == other);
                            if from < j {
                                assert(old(self).entries[from].0 != old(self).entries[j as int].0);
                            } else {
                                assert(old(self).entries[j as int].0 != old(self).entries[from].0);
                            }
                        }
                        if old(self)@.contains_key(other) && other != key {
                            let l = choose|l: int|
                                0 <= l < old(self).entries.len() && (#[trigger] old(
                                    self,
                                ).entries[l]).0 == other;
                            let to = if l < j { l } else { l - 1 };
                            assert(self.entries[to].0 == other);
                        }
                    }
                    assert forall|other: u64| self@.contains_key(other) implies self@[other]
                        == old(self)@.remove(key)[other] by {
                        let l = choose|l: int|
                            0 <= l < self.entries.len() && (#[trigger] self.entries[l]).0 == other;
                        self.lemma_entry(l);
                        old(self).lemma_entry(if l < j { l } else { l + 1 });
                    }
                    assert(self@ =~= old(self)@.remove(key));
                }
                Some(entry.1)
            },
            None => {
                assert(self@ =~= old(self)@.remove(key));
                None
            },
        }
    }
}

/// One `leapfrog` map, with a bound on the number of cells taken in it.
struct Page {
    map: LeapIndex,
    used: usize,
}

/// Whether a page is within its bounds and holds nothing but keys that it
/// can take, each with the value that `model` has for it.
spec fn page_ok(page: Page, model: Map<u64, u64>) -> bool {
    &&& leap_taken(page.map).finite()
    &&& leap_taken(page.map).len() <= page.used <= LEAP_PAGE_KEYS
    &&& forall|key: u64| #[trigger]
        leap_contents(page.map).contains_key(key) ==> {
            &&& leap_taken(page.map).contains(key)
            &&& hash_in_reach(leap_hash(page.map, key))
            &&& model.contains_key(key)
            &&& model[key] == leap_contents(page.map)[key]
        }
}

/// Whether two pages hold no key in common.
spec fn disjoint(one: Page, other: Page) -> bool {
    forall|key: u64| #[trigger]
        leap_contents(one.map).contains_key(key) ==> !leap_contents(other.map).contains_key(key)
}

/// Where a key lies.
enum Place {
    /// In the page with this number.
    InPage(usize),
    /// In the list beside the pages.
    Beside,
    Nowhere,
}

/// A map from `u64` keys to `u64` values up to `INDEX_MAX_VALUE`.
pub struct PagedIndex {
    pages: Vec<Page>,
    beside: SideList,
    count: u128,
    model: Ghost<Map<u64, u64>>,
}

impl View for PagedIndex {
    type V = Map<u64, u64>;

    closed spec fn view(&self) -> Map<u64, u64> {
        self.model@
    }
}

impl PagedIndex {
    /// Whether the page with number `i` holds `key`.
    spec fn holds(&self, i: int, key: u64) -> bool {
        leap_contents(self.pages[i].map).contains_key(key)
    }

    spec fn in_pages(&self, key: u64) -> bool {
        exists|i: int| 0 <= i < self.pages.len() && #[trigger] self.holds(i, key)
    }

    /// Every page is sound.
    spec fn pages_ok(&self) -> bool {
        forall|i: int| 0 <= i < self.pages.len() ==> page_ok(#[trigger] self.pages[i], self.model@)
    }

    /// No key is held by two pages.
    spec fn apart(&self) -> bool {
        forall|i: int, j: int|
            0 <= i < self.pages.len() && 0 <= j < self.pages.len() && i != j ==> disjoint(
                #[trigger] self.pages[i],
                #[trigger] self.pages[j],
            )
    }

    /// The list beside the pages holds its keys with the values that the view
    /// has for them, and no key that a page holds.
    spec fn beside_ok(&self) -> bool {
        &&& self.beside.wf()
        &&& forall|key: u64| #[trigger]
            self.beside@.contains_key(key) ==> {
                &&& self.model@.contains_key(key)
                &&& self.model@[key] == self.beside@[key]
                &&& !self.in_pages(key)
            }
    }

    /// Every key of the view is held by a page or by the list, with a value
    /// that can be stored.
    spec fn model_ok(&self) -> bool {
        forall|key: u64| #[trigger]
            self.model@.contains_key(key) ==> {
                &&& self.model@[key] <= INDEX_MAX_VALUE
                &&& self.in_pages(key) || self.beside@.contains_key(key)
            }
    }

    /// Every key lies in one place, every page is within its bounds, and the
    /// pages and the list hold what the view says.
    pub closed spec fn wf(&self) -> bool {
        &&& self.model@.dom().finite()
        &&& self.count == self.model@.dom().len()
        &&& self.pages_ok()
        &&& self.apart()
        &&& self.beside_ok()
        &&& self.model_ok()
    }

    /// A well-formed index holds finitely many keys, each with a value that
    /// it can store.
    pub proof fn lemma_wf(&self)
        requires
            self.wf(),
        ensures
            self@.dom().finite(),
            forall|key: u64| #[trigger] self@.contains_key(key) ==> self@[key] <= INDEX_MAX_VALUE,
    {
    }

    /// An empty index.
    pub fn new() -> (index: Self)
        ensures
            index.wf(),
            index@ == Map::<u64, u64>::empty(),
    {
        PagedIndex {
            pages: Vec::new(),
            beside: SideList::new(),
            count: 0,
            model: Ghost(Map::empty()),
        }
    }

    /// Finds the place where `key` lies, if it lies anywhere.
    fn find(&self, key: u64) -> (place: Place)
        requires
            self.wf(),
        ensures
            match place {
                Place::InPage(i) => i < self.pages.len() && self.holds(i as int, key),
                Place::Beside => self.beside@.contains_key(key),
                Place::Nowhere => !self.in_pages(key) && !self.beside@.contains_key(key),
            },
    {
        let mut i: usize = 0;
        while i < self.pages.len()
            invariant
                self.wf(),
                i <= self.pages.len(),
                forall|before: int| 0 <= before < i ==> !#[trigger] self.holds(before, key),
            decreases self.pages.len() - i,
        {
            assert(page_ok(self.pages[i as int], self.model@));
            let hash = leap_hash_of(&self.pages[i].map, key);
            if in_reach(hash) {
                if leap_get(&self.pages[i].map, key).is_some() {
                    return Place::InPage(i);
                }
            }
            i += 1;
        }
        if self.beside.position(key).is_some() {
            Place::Beside
        } else {
            Place::Nowhere
        }
    }

    /// The value stored under `key`, if any.
    pub fn get(&self, key: u64) -> (found: Option<u64>)
        requires
            self.wf(),
        ensures
            found == lookup(self@, key),
    {
        match self.find(key) {
            Place::InPage(i) => {
                assert(page_ok(self.pages[i as int], self.model@));
                leap_get(&self.pages[i].map, key)
            },
            Place::Beside => match self.beside.position(key) {
                Some(j) => Some(self.beside.entries[j].1),
                None => None,
            },
            Place::Nowhere => None,
        }
    }

    /// Whether a value is stored under `key`.
    pub fn contains(&self, key: u64) -> (present: bool)
        requires
            self.wf(),
        ensures
            present == self@.contains_key(key),
    {
        self.get(key).is_some()
    }

    /// The number of keys, or the largest `usize` where there are more.
    pub fn len(&self) -> (count: usize)
        requires
            self.wf(),
        ensures
            count == clamped(self@.dom().len()),
    {
        if self.count > usize::MAX as u128 {
            usize::MAX
        } else {
            self.count as usize
        }
    }

    /// Forgets every key.
    pub fn clear(&mut self)
        ensures
            final(self).wf(),
            final(self)@ == Map::<u64, u64>::empty(),
    {
        self.pages = Vec::new();
        self.beside = SideList::new();
        self.count = 0;
        self.model = Ghost(Map::empty());
    }

    /// The page that takes the next new key: the last one, or a new one where
    /// there is none or the last one has no cell left to give.
    fn open_page(&mut self)
        requires
            old(self).wf(),
        ensures
            final(self).wf(),
            final(self)@ == old(self)@,
            final(self).pages.len() > 0,
            final(self).pages[final(self).pages.len() - 1].used < LEAP_PAGE_KEYS,
            final(self).count == old(self).count,
            final(self).beside == old(self).beside,
            forall|key: u64| final(self).in_pages(key) == old(self).in_pages(key),
    {
        let full = self.pages.len() == 0 || self.pages[self.pages.len() - 1].used
            >= LEAP_PAGE_KEYS;
        if full {
            self.pages.push(Page { map: leap_new(LEAP_MIN_CELLS), used: 0 });
            proof {
                let last = self.pages.len() - 1;
                assert(leap_contents(self.pages[last].map).dom() =~= Set::<u64>::empty());
                let from = |at: int| at;
                assert forall|old_at: int, key: u64|
                    0 <= old_at < old(self).pages.len() && #[trigger] old(self).holds(
                        old_at,
                        key,
                    ) implies exists|at: int| 0 <= at < self.pages.len() && #[trigger] from(at)
                        == old_at by {
                    assert(from(old_at) == old_at);
                }
                self.lemma_pages_moved(*old(self), from);
            }
        }
    }

    /// Gives up the page with number `i` if it holds no key and has no cell
    /// left to give.
    fn drop_if_empty(&mut self, i: usize)
        requires
            old(self).wf(),
            i < old(self).pages.len(),
        ensures
            final(self).wf(),
            final(self)@ == old(self)@,
    {
        proof {
            let page = self.pages[i as int];
            assert(page_ok(page, self.model@));
            assert(leap_contents(page.map).dom().subset_of(leap_taken(page.map))) by {
                assert forall|key: u64| leap_contents(page.map).dom().contains(
                    key,
                ) implies leap_taken(page.map).contains(key) by {
                    assert(leap_contents(page.map).contains_key(key));
                }
            }
            lemma_len_subset(leap_contents(page.map).dom(), leap_taken(page.map));
        }
        if self.pages[i].used >= LEAP_PAGE_KEYS && leap_len(&self.pages[i].map) == 0 {
            let _ = self.pages.remove(i);
            proof {
                let gone = leap_contents(old(self).pages[i as int].map);
                assert(gone.dom() =~= Set::<u64>::empty());
                let from = |at: int| if at < i { at } else { at + 1 };
                assert forall|old_at: int, key: u64|
                    0 <= old_at < old(self).pages.len() && #[trigger] old(self).holds(
                        old_at,
                        key,
                    ) implies exists|at: int| 0 <= at < self.pages.len() && #[trigger] from(at)
                        == old_at by {
                    if old_at == i {
                        assert(gone.dom().contains(key));
                    }
                    let to = if old_at < i { old_at } else { old_at - 1 };
                    assert(from(to) == old_at);
                }
                self.lemma_pages_moved(*old(self), from);
            }
        }
    }

    /// Stores `value` under `key`, in place of what was stored there, if
    /// anything.
    pub fn insert(&mut self, key: u64, value: u64)
        requires
            old(self).wf(),
            value <= INDEX_MAX_VALUE,
        ensures
            final(self).wf(),
            final(self)@ == old(self)@.insert(key, value),
    {
        match self.find(key) {
            Place::InPage(i) => {
                proof {
                    assert(page_ok(self.pages[i as int], self.model@));
                    let taken = leap_taken(self.pages[i as int].map);
                    assert(taken.insert(key) =~= taken);
                    assert(self.model@.insert(key, value).dom() =~= self.model@.dom());
                }
                let page = &mut self.pages[i];
                leap_insert(&mut page.map, key, value);
                self.model = Ghost(self.model@.insert(key, value));
                proof {
                    self.lemma_page_changed(*old(self), i as int, key, Some(value));
                }
            },
            Place::Beside => {
                proof {
                    assert(self.model@.insert(key, value).dom() =~= self.model@.dom());
                }
                self.beside.put(key, value);
                self.model = Ghost(self.model@.insert(key, value));
                proof {
                    self.lemma_list_changed(*old(self), key, Some(value));
                }
            },
            Place::Nowhere => {
                self.open_page();
                let ghost opened = *self;
                let last = self.pages.len() - 1;
                let hash = leap_hash_of(&self.pages[last].map, key);
                proof {
                    assert(!self.model@.contains_key(key));
                    lemma_keys_bounded(self.model@.insert(key, value).dom());
                    assert(page_ok(self.pages[last as int], self.model@));
                }
                self.count = self.count + 1;
                self.model = Ghost(self.model@.insert(key, value));
                if in_reach(hash) {
                    let page = &mut self.pages[last];
                    leap_insert(&mut page.map, key, value);
                    page.used = page.used + 1;
                    proof {
                        self.lemma_page_changed(opened, last as int, key, Some(value));
                    }
                } else {
                    self.beside.put(key, value);
                    proof {
                        self.lemma_list_changed(opened, key, Some(value));
                    }
                }
            },
        }
    }

    /// Takes `key` out of the index and hands back the value that was stored
    /// under it, if any.
    pub fn remove(&mut self, key: u64) -> (removed: Option<u64>)
        requires
            old(self).wf(),
        ensures
            final(self).wf(),
            final(self)@ == old(self)@.remove(key),
            removed == lookup(old(self)@, key),
    {
        match self.find(key) {
            Place::InPage(i) => {
                assert(page_ok(self.pages[i as int], self.model@));
                let page = &mut self.pages[i];
                let removed = leap_remove(&mut page.map, key);
                self.count = self.count - 1;
                self.model = Ghost(self.model@.remove(key));
                proof {
                    self.lemma_page_changed(*old(self), i as int, key, None);
                }
                self.drop_if_empty(i);
                removed
            },
            Place::Beside => {
                let removed = self.beside.take(key);
                self.count = self.count - 1;
                self.model = Ghost(self.model@.remove(key));
                proof {
                    self.lemma_list_changed(*old(self), key, None);
                }
                removed
            },
            Place::Nowhere => {
                assert(self@.remove(key) =~= self@);
                None
            },
        }
    }

    /// A key other than `but` is held by a page of this index exactly if it
    /// is held by a page of `before`, where each page of this index holds of
    /// such keys what the page `from` of it in `before` holds, and the pages
    /// of `before` that are no page of this index hold nothing.
    proof fn lemma_same_keys(&self, before: Self, from: spec_fn(int) -> int, but: Option<u64>)
        requires
            forall|at: int|
                0 <= at < self.pages.len() ==> 0 <= #[trigger] from(at) < before.pages.len(),
            forall|at: int, key: u64|
                0 <= at < self.pages.len() && Some(key) != but ==> #[trigger] self.holds(at, key)
                    == before.holds(from(at), key),
            forall|old_at: int, key: u64|
                0 <= old_at < before.pages.len() && #[trigger] before.holds(old_at, key)
                    ==> exists|at: int| 0 <= at < self.pages.len() && #[trigger] from(at) == old_at,
        ensures
            forall|key: u64| Some(key) != but ==> self.in_pages(key) == before.in_pages(key),
    {
        assert forall|key: u64| Some(key) != but implies self.in_pages(key) == before.in_pages(
            key,
        ) by {
            if self.in_pages(key) {
                let at = choose|at: int| 0 <= at < self.pages.len() && #[trigger] self.holds(at, key);
                assert(before.holds(from(at), key));
            }
            if before.in_pages(key) {
                let old_at = choose|old_at: int|
                    0 <= old_at < before.pages.len() && #[trigger] before.holds(old_at, key);
                let at = choose|at: int| 0 <= at < self.pages.len() && #[trigger] from(at) == old_at;
                assert(self.holds(at, key));
            }
        }
    }

    /// The index is sound, and holds what it held, after pages that hold
    /// nothing came or went: each page that held a key is a page still, and
    /// each page now is the page `from` of it before, or holds nothing.
    proof fn lemma_pages_moved(&self, before: Self, from: spec_fn(int) -> int)
        requires
            before.wf(),
            forall|at: int|
                0 <= at < self.pages.len() ==> 0 <= #[trigger] from(at) && (from(at)
                    < before.pages.len() ==> self.pages[at] == before.pages[from(at)]) && (from(at)
                    >= before.pages.len() ==> page_ok(self.pages[at], self.model@) && leap_contents(
                    self.pages[at].map,
                ).dom() == Set::<u64>::empty()),
            forall|a: int, b: int|
                0 <= a < self.pages.len() && 0 <= b < self.pages.len() && a != b ==> #[trigger] from(
                    a,
                ) != #[trigger] from(b),
            forall|old_at: int, key: u64|
                0 <= old_at < before.pages.len() && #[trigger] before.holds(old_at, key)
                    ==> exists|at: int| 0 <= at < self.pages.len() && #[trigger] from(at) == old_at,
            self.beside == before.beside,
            self.model == before.model,
            self.count == before.count,
        ensures
            self.wf(),
            forall|key: u64| self.in_pages(key) == before.in_pages(key),
    {
        assert forall|key: u64| self.in_pages(key) == before.in_pages(key) by {
            if self.in_pages(key) {
                let at = choose|at: int| 0 <= at < self.pages.len() && #[trigger] self.holds(at, key);
                assert(leap_contents(self.pages[at].map).dom().contains(key));
                assert(before.holds(from(at), key));
            }
            if before.in_pages(key) {
                let old_at = choose|old_at: int|
                    0 <= old_at < before.pages.len() && #[trigger] before.holds(old_at, key);
                let at = choose|at: int| 0 <= at < self.pages.len() && #[trigger] from(at) == old_at;
                assert(self.holds(at, key));
            }
        }
        assert(self.pages_ok()) by {
            assert forall|at: int| 0 <= at < self.pages.len() implies page_ok(
                #[trigger] self.pages[at],
                self.model@,
            ) by {
                if from(at) < before.pages.len() {
                    assert(page_ok(before.pages[from(at)], before.model@));
                }
            }
        }
        assert(self.apart()) by {
            assert forall|a: int, b: int|
                0 <= a < self.pages.len() && 0 <= b < self.pages.len() && a != b implies disjoint(
                #[trigger] self.pages[a],
                #[trigger] self.pages[b],
            ) by {
                assert(from(a) != from(b));
                if from(a) < before.pages.len() && from(b) < before.pages.len() {
                    assert(disjoint(before.pages[from(a)], before.pages[from(b)]));
                } else {
                    assert forall|key: u64| #[trigger]
                        leap_contents(self.pages[a].map).contains_key(key) implies !leap_contents(
                        self.pages[b].map,
                    ).contains_key(key) by {
                        assert(leap_contents(self.pages[a].map).dom().contains(key));
                        if leap_contents(self.pages[b].map).contains_key(key) {
                            assert(leap_contents(self.pages[b].map).dom().contains(key));
                        }
                    }
                }
            }
        }
        assert(self.beside_ok());
        assert(self.model_ok()) by {
            assert forall|key: u64| #[trigger] self.model@.contains_key(key) implies self.model@[key]
                <= INDEX_MAX_VALUE && (self.in_pages(key) || self.beside@.contains_key(key)) by {
                assert(before.model@.contains_key(key));
            }
        }
    }

    /// The index is sound after the page with number `i` took `value` for
    /// `key`, or lost `key` where `value` is none.
    proof fn lemma_page_changed(&self, before: Self, i: int, key: u64, value: Option<u64>)
        requires
            before.wf(),
            0 <= i < before.pages.len(),
            self.pages.len() == before.pages.len(),
            forall|other: int|
                0 <= other < self.pages.len() && other != i ==> #[trigger] self.pages[other]
                    == before.pages[other],
            self.beside == before.beside,
            forall|other: u64| #[trigger]
                leap_hash(self.pages[i].map, other) == leap_hash(before.pages[i].map, other),
            hash_in_reach(leap_hash(before.pages[i].map, key)),
            match value {
                Some(stored) => {
                    &&& stored <= INDEX_MAX_VALUE
                    &&& leap_contents(self.pages[i].map) == leap_contents(
                        before.pages[i].map,
                    ).insert(key, stored)
                    &&& leap_taken(self.pages[i].map) == leap_taken(before.pages[i].map).insert(key)
                    &&& self.model@ == before.model@.insert(key, stored)
                    &&& before.holds(i, key) || (!before.in_pages(key)
                        && !before.beside@.contains_key(key))
                },
                None => {
                    &&& leap_contents(self.pages[i].map) == leap_contents(
                        before.pages[i].map,
                    ).remove(key)
                    &&& leap_taken(self.pages[i].map) == leap_taken(before.pages[i].map)
                    &&& self.model@ == before.model@.remove(key)
                    &&& before.holds(i, key)
                },
            },
            leap_taken(self.pages[i].map).len() <= self.pages[i].used <= LEAP_PAGE_KEYS,
            self.count == self.model@.dom().len(),
        ensures
            self.wf(),
    {
        // No other page holds the key.
        assert forall|at: int| 0 <= at < before.pages.len() && at != i implies !before.holds(
            at,
            key,
        ) by {
            if before.holds(at, key) {
                assert(before.in_pages(key));
                assert(disjoint(before.pages[at], before.pages[i]));
            }
        }
        assert forall|at: int, other: u64|
            0 <= at < self.pages.len() && other != key implies #[trigger] self.holds(at, other)
            == before.holds(at, other) by {
            if at != i {
                assert(self.pages[at] == before.pages[at]);
            }
        }
        let same = |at: int| at;
        assert forall|old_at: int, other: u64|
            0 <= old_at < before.pages.len() && #[trigger] before.holds(
                old_at,
                other,
            ) implies exists|at: int| 0 <= at < self.pages.len() && #[trigger] same(at)
                == old_at by {
            assert(same(old_at) == old_at);
        }
        self.lemma_same_keys(before, same, Some(key));
        if value is Some {
            assert(self.holds(i, key));
        }
        assert(self.pages_ok()) by {
            assert forall|at: int| 0 <= at < self.pages.len() implies page_ok(
                #[trigger] self.pages[at],
                self.model@,
            ) by {
                assert(page_ok(before.pages[at], before.model@));
                if at != i {
                    assert(self.pages[at] == before.pages[at]);
                    assert(!before.holds(at, key));
                }
            }
        }
        assert(self.apart()) by {
            assert forall|a: int, b: int|
                0 <= a < self.pages.len() && 0 <= b < self.pages.len() && a != b implies disjoint(
                #[trigger] self.pages[a],
                #[trigger] self.pages[b],
            ) by {
                assert(disjoint(before.pages[a], before.pages[b]));
                assert(self.holds(a, key) ==> a == i);
                assert(self.holds(b, key) ==> b == i);
                assert forall|other: u64| #[trigger]
                    leap_contents(self.pages[a].map).contains_key(other) implies !leap_contents(
                    self.pages[b].map,
                ).contains_key(other) by {
                    if other != key {
                        assert(self.holds(a, other) == before.holds(a, other));
                        assert(self.holds(b, other) == before.holds(b, other));
                    } else {
                        assert(self.holds(a, key));
                    }
                }
            }
        }
        assert(self.beside_ok()) by {
            assert forall|other: u64| #[trigger]
                self.beside@.contains_key(other) implies self.model@.contains_key(other)
                && self.model@[other] == self.beside@[other] && !self.in_pages(other) by {
                assert(before.beside@.contains_key(other));
                if other == key {
                    assert(!before.in_pages(key));
                }
            }
        }
        assert(self.model_ok()) by {
            assert forall|other: u64| #[trigger] self.model@.contains_key(other) implies self.model@[other]
                <= INDEX_MAX_VALUE && (self.in_pages(other) || self.beside@.contains_key(
                other,
            )) by {
                if other != key {
                    assert(before.model@.contains_key(other));
                }
            }
        }
    }

    /// The index is sound after the list beside the pages took `value` for
    /// `key`, or lost `key` where `value` is none.
    proof fn lemma_list_changed(&self, before: Self, key: u64, value: Option<u64>)
        requires
            before.wf(),
            self.pages == before.pages,
            self.beside.wf(),
            match value {
                Some(stored) => {
                    &&& stored <= INDEX_MAX_VALUE
                    &&& self.beside@ == before.beside@.insert(key, stored)
                    &&& self.model@ == before.model@.insert(key, stored)
                    &&& !before.in_pages(key)
                },
                None => {
                    &&& self.beside@ == before.beside@.remove(key)
                    &&& self.model@ == before.model@.remove(key)
                    &&& before.beside@.contains_key(key)
                },
            },
            self.count == self.model@.dom().len(),
        ensures
            self.wf(),
    {
        assert forall|at: int| 0 <= at < before.pages.len() implies !before.holds(at, key) by {
            if before.holds(at, key) {
                assert(before.in_pages(key));
            }
        }
        let same = |at: int| at;
        assert forall|old_at: int, other: u64|
            0 <= old_at < before.pages.len() && #[trigger] before.holds(
                old_at,
                other,
            ) implies exists|at: int| 0 <= at < self.pages.len() && #[trigger] same(at)
                == old_at by {
            assert(same(old_at) == old_at);
        }
        self.lemma_same_keys(before, same, None);
        assert(self.pages_ok()) by {
            assert forall|at: int| 0 <= at < self.pages.len() implies page_ok(
                #[trigger] self.pages[at],
                self.model@,
            ) by {
                assert(page_ok(before.pages[at], before.model@));
                assert(!before.holds(at, key));
            }
        }
        assert(self.apart()) by {
            assert forall|a: int, b: int|
                0 <= a < self.pages.len() && 0 <= b < self.pages.len() && a != b implies disjoint(
                #[trigger] self.pages[a],
                #[trigger] self.pages[b],
            ) by {
                assert(disjoint(before.pages[a], before.pages[b]));
            }
        }
        assert(self.beside_ok()) by {
            assert forall|other: u64| #[trigger]
                self.beside@.contains_key(other) implies self.model@.contains_key(other)
                && self.model@[other] == self.beside@[other] && !self.in_pages(other) by {
                if other != key {
                    assert(before.beside@.contains_key(other));
                }
            }
        }
        assert(self.model_ok()) by {
            assert forall|other: u64| #[trigger] self.model@.contains_key(other) implies self.model@[other]
                <= INDEX_MAX_VALUE && (self.in_pages(other) || self.beside@.contains_key(
                other,
            )) by {
                if other != key {
                    assert(before.model@.contains_key(other));
                }
            }
        }
    }
}

} // verus!

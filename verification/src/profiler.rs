//! The profiler: its configuration, its counters and stores, and what each
//! allocation event does to them.

use crate::cell::{cell_get, cell_get_mut, cell_new, cell_set, cell_value};
use crate::callstack::{
    hash_frames, kept_frames, populate_symbol_map, populated, stack_text, FriendlySymbol,
    StdCallstack, SymbolMap,
};
use crate::clock::{recent_epoch_millis, MILLIS_LIMIT};
use crate::guard::{lock_out_profiler, next_count, YingThreadLocal};
use crate::ranking::{is_ranking, lemma_ranking_members, sort_desc};
use crate::text::{decimal_string, decimal_text};
use crate::trace::{backtrace_ips, capture_unresolved};
use crate::paged::{clamped, INDEX_MAX_VALUE};
use crate::stats::{freed, resized, upserted, StackStats, StackStatsView, StatsStore};
use crate::tracker::{rekeyed, AllocInfo, Tracker};
use once_cell::sync::OnceCell;
use backtrace::Backtrace;
use vstd::prelude::*;
use vstd::string::*;

verus! {

/// The size from which on a single allocation is denied, unless the profiler
/// is made with another limit: 64 GiB.
pub const DEFAULT_GIANT_ALLOC_LIMIT: u64 = 0x10_0000_0000;

/// The default limit as a size of this machine: 64 GiB, or the largest size
/// where that is less.
pub open spec fn default_alloc_limit() -> usize {
    if DEFAULT_GIANT_ALLOC_LIMIT > usize::MAX {
        usize::MAX
    } else {
        DEFAULT_GIANT_ALLOC_LIMIT as usize
    }
}

/// The sampling ratio of a profiler made with `default`.
pub const DEFAULT_SAMPLING_RATIO: u32 = 500;

/// The stores of the profiler. They are built together, when first needed.
pub struct YingState {
    symbol_map: SymbolMap,
    stack_stats: StatsStore,
    outstanding_allocs: Tracker,
}

impl YingState {
    /// The statistics store and the tracker are sound.
    pub closed spec fn wf(&self) -> bool {
        &&& self.stack_stats.wf()
        &&& self.outstanding_allocs.wf()
    }

    fn new() -> (state: Self)
        ensures
            state.wf(),
            state.symbol_map@ == Map::<u64, Seq<FriendlySymbol>>::empty(),
            state.stack_stats@ == Map::<u64, StackStatsView>::empty(),
            state.stack_stats.hashes() == Seq::<u64>::empty(),
            state.outstanding_allocs@ == Map::<u64, AllocInfo>::empty(),
    {
        YingState {
            symbol_map: SymbolMap::new(),
            stack_stats: StatsStore::new(),
            outstanding_allocs: Tracker::new(),
        }
    }
}

/// A sampling memory profiler: the configuration, the process-wide counters,
/// and the stores of what was sampled.
pub struct YingProfiler {
    /// One in this many allocations is sampled.
    sampling_ratio: u32,
    /// A single allocation of this size or more is denied.
    single_alloc_limit: usize,
    total_retained: usize,
    profiled_allocated: usize,
    profiled_retained: usize,
    state: OnceCell<YingState>,
}

/// The profiler as contracts see it.
pub struct ProfilerView {
    pub sampling_ratio: u32,
    pub single_alloc_limit: usize,
    /// The bytes of all live allocations, sampled or not.
    pub total_retained: usize,
    /// The bytes of all sampled allocations.
    pub profiled_allocated: usize,
    /// The bytes of the sampled allocations that are live.
    pub profiled_retained: usize,
    /// Whether the stores were built.
    pub initialized: bool,
    /// The symbol cache.
    pub symbols: Map<u64, Seq<FriendlySymbol>>,
    /// The statistics store.
    pub stats: Map<u64, StackStatsView>,
    /// The hashes in the statistics store, in the order in which they came.
    pub order: Seq<u64>,
    /// The outstanding sampled allocations.
    pub outstanding: Map<u64, AllocInfo>,
}

impl ProfilerView {
    /// Whether a single allocation of `size` bytes is denied.
    pub open spec fn denies(self, size: usize) -> bool {
        size >= self.single_alloc_limit
    }

    /// Whether the statistics store can take one more stack.
    pub open spec fn has_room(self) -> bool {
        self.order.len() < INDEX_MAX_VALUE
    }

    /// After `size` more bytes went live.
    pub open spec fn retained_more(self, size: usize) -> ProfilerView {
        ProfilerView { total_retained: self.total_retained.wrapping_add(size), ..self }
    }

    /// After `size` bytes ceased to be live.
    pub open spec fn retained_less(self, size: usize) -> ProfilerView {
        ProfilerView { total_retained: self.total_retained.wrapping_sub(size), ..self }
    }

    /// After the allocation of `size` bytes at `ptr` was sampled: it is
    /// counted for the stack `stack` and tracked under its address with the
    /// time `now`.
    pub open spec fn sample_recorded(
        self,
        ptr: u64,
        size: usize,
        stack: Seq<u64>,
        now: u64,
    ) -> ProfilerView {
        let hash = hash_frames(stack);
        ProfilerView {
            profiled_allocated: self.profiled_allocated.wrapping_add(size),
            profiled_retained: self.profiled_retained.wrapping_add(size),
            initialized: true,
            stats: upserted(self.stats, hash, stack, size as u64, self.has_room()),
            order: if self.stats.contains_key(hash) || !self.has_room() {
                self.order
            } else {
                self.order.push(hash)
            },
            outstanding: self.outstanding.insert(ptr, AllocInfo(hash, now)),
            ..self
        }
    }

    /// After the allocation of `size` bytes at `ptr` was freed. A tracked
    /// address leaves the tracker, and the free is counted for the stack
    /// that made the allocation.
    pub open spec fn freed_at(self, ptr: u64, size: usize) -> ProfilerView {
        let base = self.retained_less(size);
        if !self.outstanding.contains_key(ptr) {
            base
        } else {
            ProfilerView {
                profiled_retained: base.profiled_retained.wrapping_sub(size),
                stats: freed(base.stats, base.outstanding[ptr].0, size as u64),
                outstanding: base.outstanding.remove(ptr),
                ..base
            }
        }
    }
}

/// A counter after an allocation changed its size from `old_size` to
/// `new_size`.
pub open spec fn resize_count(count: usize, old_size: usize, new_size: usize) -> usize {
    if new_size > old_size {
        count.wrapping_add((new_size - old_size) as usize)
    } else {
        count.wrapping_sub((old_size - new_size) as usize)
    }
}

impl ProfilerView {
    /// After the allocation of `old_size` bytes at `ptr` became one of
    /// `new_size` bytes at `new_ptr`. A tracked allocation keeps its record,
    /// under the new address, and its stack's allocated bytes follow the
    /// change of size.
    pub open spec fn moved_at(
        self,
        ptr: u64,
        old_size: usize,
        new_ptr: u64,
        new_size: usize,
    ) -> ProfilerView {
        let base = ProfilerView {
            total_retained: resize_count(self.total_retained, old_size, new_size),
            ..self
        };
        if !self.outstanding.contains_key(ptr) {
            base
        } else {
            ProfilerView {
                profiled_retained: resize_count(base.profiled_retained, old_size, new_size),
                stats: resized(
                    base.stats,
                    base.outstanding[ptr].0,
                    old_size as u64,
                    new_size as u64,
                ),
                outstanding: rekeyed(base.outstanding, ptr, new_ptr),
                ..base
            }
        }
    }
}

/// Whether every stack of the statistics stands under the hash of its frames.
pub open spec fn keyed_by_hash(stats: Map<u64, StackStatsView>) -> bool {
    forall|hash: u64| #[trigger] stats.contains_key(hash) ==> hash_frames(stats[hash].stack) == hash
}

/// Whether `after` is `before` with the allocation of `size` bytes at `ptr`
/// counted as live and recorded as a sample, taken at the time `now`, of the
/// call stack that the frames of `trace` give. Where the stack is new to the
/// statistics, `trace` is resolved and the symbol cache has grown by the
/// symbols of its frames; where it is known, the cache is as before.
pub open spec fn sampled_from(
    before: ProfilerView,
    after: ProfilerView,
    ptr: u64,
    size: usize,
    trace: Backtrace,
    now: u64,
) -> bool {
    let stack = kept_frames(backtrace_ips(trace));
    &&& now < MILLIS_LIMIT
    &&& after == (ProfilerView {
        symbols: after.symbols,
        ..before.retained_more(size).sample_recorded(ptr, size, stack, now)
    })
    &&& if before.stats.contains_key(hash_frames(stack)) {
        after.symbols == before.symbols
    } else {
        populated(before.symbols, after.symbols, trace, backtrace_ips(trace).len() as int)
    }
}

/// Whether `after` and `report` are what the denial of a request for `size`
/// bytes leaves of `before`, where the request came from the call stack that
/// the frames of the resolved backtrace `trace` give: the stores are built,
/// the symbol cache has grown by the symbols of the frames, the report names
/// the size and the stack, and nothing else has changed.
pub open spec fn reported_from(
    before: ProfilerView,
    after: ProfilerView,
    size: usize,
    trace: Backtrace,
    report: Option<Seq<char>>,
) -> bool {
    &&& after == (ProfilerView { initialized: true, symbols: after.symbols, ..before })
    &&& populated(before.symbols, after.symbols, trace, backtrace_ips(trace).len() as int)
    &&& report == Some(
        denial_text(size, stack_text(after.symbols, kept_frames(backtrace_ips(trace)), true)),
    )
}

/// What the denial of a request for `size` bytes does, on a thread whose
/// guard was `locked` or not. With the guard locked nothing changes and
/// nothing is reported. With the guard free the call stack of the request is
/// captured and reported. No counter, statistic or tracked address changes
/// either way.
pub open spec fn denied_from(
    before: ProfilerView,
    after: ProfilerView,
    locked: bool,
    size: usize,
    report: Option<Seq<char>>,
) -> bool {
    if locked {
        after == before && report is None
    } else {
        exists|trace: Backtrace| #[trigger] reported_from(before, after, size, trace, report)
    }
}

/// What an allocation event does to the profiler: `after` is a state that may
/// follow `before`, and `report` the report that may be given, when `size`
/// bytes were asked for and the underlying allocator answered `ptr`, on a
/// thread whose guard was `locked` or not and whose sample counter stood at
/// `counter`.
pub open spec fn allocated_at(
    before: ProfilerView,
    after: ProfilerView,
    locked: bool,
    counter: u32,
    ptr: u64,
    size: usize,
    report: Option<Seq<char>>,
) -> bool {
    if before.denies(size) {
        denied_from(before, after, locked, size, report)
    } else if ptr == 0 {
        after == before && report is None
    } else if locked || counter % before.sampling_ratio != 0 {
        after == before.retained_more(size) && report is None
    } else {
        &&& report is None
        &&& exists|trace: Backtrace, now: u64| #[trigger]
            sampled_from(before, after, ptr, size, trace, now)
    }
}

/// What a move does to the profiler: `after` is a state that may follow
/// `before`, and `report` the report that may be given, when the `old_size`
/// bytes at `ptr` were to become `new_size` bytes and the underlying
/// allocator answered `new_ptr` for the new block.
pub open spec fn reallocated_at(
    before: ProfilerView,
    after: ProfilerView,
    locked: bool,
    ptr: u64,
    old_size: usize,
    new_ptr: u64,
    new_size: usize,
    report: Option<Seq<char>>,
) -> bool {
    if before.denies(new_size) {
        denied_from(before, after, locked, new_size, report)
    } else if new_ptr == 0 {
        after == before && report is None
    } else {
        after == before.moved_at(ptr, old_size, new_ptr, new_size) && report is None
    }
}

/// The text of a report, if there is one.
pub open spec fn report_view(report: Option<String>) -> Option<Seq<char>> {
    match report {
        Some(text) => Some(text@),
        None => None,
    }
}

/// The text that reports a denied allocation of `size` bytes, made from the
/// call stack whose text is `trace`.
pub open spec fn denial_text(size: usize, trace: Seq<char>) -> Seq<char> {
    "WARNING: Huge memory allocation of "@ + decimal_text(size as nat)
        + " bytes denied by Ying profiler\nStack trace:\n"@ + trace
}

/// Writes the report of a denied allocation of `size` bytes made from
/// `stack`.
pub fn denial_report(size: usize, stack: &StdCallstack, symbol_map: &SymbolMap) -> (text: String)
    ensures
        text@ == denial_text(size, stack_text(symbol_map@, stack@, true)),
{
    let mut text = String::from_str("WARNING: Huge memory allocation of ");
    text.append(decimal_string(size as u64).as_str());
    text.append(" bytes denied by Ying profiler\nStack trace:\n");
    text.append(stack.with_symbols_and_filename(symbol_map).as_str());
    text
}

/// What the profiler answers to an allocation request.
pub struct AllocOutcome {
    /// The address to hand to the requester: that of the underlying
    /// allocator, or null where the request is denied.
    pub ptr: u64,
    /// The report of a denial, for the caller to print.
    pub denial_report: Option<String>,
}

impl View for YingProfiler {
    type V = ProfilerView;

    closed spec fn view(&self) -> ProfilerView {
        ProfilerView {
            sampling_ratio: self.sampling_ratio,
            single_alloc_limit: self.single_alloc_limit,
            total_retained: self.total_retained,
            profiled_allocated: self.profiled_allocated,
            profiled_retained: self.profiled_retained,
            initialized: cell_value(self.state) is Some,
            symbols: match cell_value(self.state) {
                Some(state) => state.symbol_map@,
                None => Map::empty(),
            },
            stats: match cell_value(self.state) {
                Some(state) => state.stack_stats@,
                None => Map::empty(),
            },
            order: match cell_value(self.state) {
                Some(state) => state.stack_stats.hashes(),
                None => Seq::empty(),
            },
            outstanding: match cell_value(self.state) {
                Some(state) => state.outstanding_allocs@,
                None => Map::empty(),
            },
        }
    }
}

impl YingProfiler {
    /// The sampling ratio is positive, the stores, once built, are sound, and
    /// every stack of the statistics stands under its own hash.
    pub closed spec fn wf(&self) -> bool {
        &&& self.sampling_ratio > 0
        &&& match cell_value(self.state) {
            Some(state) => state.wf(),
            None => true,
        }
        &&& keyed_by_hash(self@.stats)
    }

    /// A profiler that samples one in `sampling_ratio` allocations and denies
    /// single allocations of `single_alloc_limit` bytes or more. Its counters
    /// are zero and its stores are not built yet.
    pub fn new(sampling_ratio: u32, single_alloc_limit: usize) -> (profiler: Self)
        requires
            sampling_ratio > 0,
        ensures
            profiler.wf(),
            profiler@ == (ProfilerView {
                sampling_ratio,
                single_alloc_limit,
                total_retained: 0,
                profiled_allocated: 0,
                profiled_retained: 0,
                initialized: false,
                symbols: Map::empty(),
                stats: Map::empty(),
                order: Seq::empty(),
                outstanding: Map::empty(),
            }),
    {
        YingProfiler {
            sampling_ratio,
            single_alloc_limit,
            total_retained: 0,
            profiled_allocated: 0,
            profiled_retained: 0,
            state: cell_new(),
        }
    }

    /// A profiler that samples one in 500 allocations and denies single
    /// allocations of 64 GiB or more.
    pub fn default() -> (profiler: Self)
        ensures
            profiler.wf(),
            profiler@ == (ProfilerView {
                sampling_ratio: DEFAULT_SAMPLING_RATIO,
                single_alloc_limit: default_alloc_limit(),
                total_retained: 0,
                profiled_allocated: 0,
                profiled_retained: 0,
                initialized: false,
                symbols: Map::empty(),
                stats: Map::empty(),
                order: Seq::empty(),
                outstanding: Map::empty(),
            }),
    {
        let limit: usize = if DEFAULT_GIANT_ALLOC_LIMIT > usize::MAX as u64 {
            usize::MAX
        } else {
            DEFAULT_GIANT_ALLOC_LIMIT as usize
        };
        Self::new(DEFAULT_SAMPLING_RATIO, limit)
    }

    /// The bytes of all live allocations, sampled or not.
    pub fn total_retained_bytes(&self) -> (bytes: usize)
        ensures
            bytes == self@.total_retained,
    {
        self.total_retained
    }

    /// The bytes of all sampled allocations.
    pub fn profiled_bytes_allocated(&self) -> (bytes: usize)
        ensures
            bytes == self@.profiled_allocated,
    {
        self.profiled_allocated
    }

    /// The bytes of the sampled allocations that are live.
    pub fn profiled_bytes_retained(&self) -> (bytes: usize)
        ensures
            bytes == self@.profiled_retained,
    {
        self.profiled_retained
    }

    /// The number of instruction pointers in the symbol cache.
    pub fn symbol_map_size(&self) -> (count: usize)
        ensures
            count == self@.symbols.dom().len(),
    {
        match cell_get(&self.state) {
            Some(state) => state.symbol_map.len(),
            None => 0,
        }
    }

    /// The number of outstanding sampled allocations, or the largest `usize`
    /// where there are more.
    pub fn num_outstanding_allocs(&self) -> (count: usize)
        requires
            self.wf(),
        ensures
            count == clamped(self@.outstanding.dom().len()),
    {
        match cell_get(&self.state) {
            Some(state) => state.outstanding_allocs.len(),
            None => 0,
        }
    }

    /// What the tracker holds for the allocation at `ptr`, if it is an
    /// outstanding sampled allocation.
    pub fn allocation_info(&self, ptr: u64) -> (found: Option<AllocInfo>)
        requires
            self.wf(),
        ensures
            found == if self@.outstanding.contains_key(ptr) {
                Some(self@.outstanding[ptr])
            } else {
                None
            },
    {
        match cell_get(&self.state) {
            Some(state) => state.outstanding_allocs.get(ptr),
            None => None,
        }
    }

    /// Whether the stores were built.
    pub fn is_initialized(&self) -> (built: bool)
        ensures
            built == self@.initialized,
    {
        cell_get(&self.state).is_some()
    }

    /// Builds the stores unless they exist.
    fn ensure_state(&mut self)
        requires
            old(self).wf(),
        ensures
            final(self).wf(),
            final(self)@ == (ProfilerView { initialized: true, ..old(self)@ }),
    {
        if cell_get(&self.state).is_none() {
            cell_set(&mut self.state, YingState::new());
        }
    }

    /// Records a sampled allocation of `size` bytes at `ptr`, made by `stack`
    /// at the time `now`, in milliseconds since the epoch: the profiled
    /// counters grow by `size`, the stack's statistics count the allocation,
    /// and the address is tracked.
    pub fn record_sampled_alloc(&mut self, ptr: u64, size: usize, stack: StdCallstack, now: u64)
        requires
            old(self).wf(),
            now <= INDEX_MAX_VALUE,
        ensures
            final(self).wf(),
            final(self)@ == old(self)@.sample_recorded(ptr, size, stack@, now),
    {
        let stack_hash = stack.compute_hash();
        self.record_with_hash(ptr, size, stack, stack_hash, now);
    }

    /// Follows the release of `size` bytes at `ptr`. The retained bytes fall
    /// by `size`. Where the address is tracked, the profiled retained bytes
    /// fall too, the address leaves the tracker, and the free is counted for
    /// the stack that allocated it. The guard is held while this is done and
    /// is afterwards as it was.
    pub fn dealloc(&mut self, tl: &mut YingThreadLocal, ptr: u64, size: usize)
        requires
            old(self).wf(),
        ensures
            final(self).wf(),
            final(self)@ == old(self)@.freed_at(ptr, size),
            final(tl).locked() == old(tl).locked(),
            final(tl).counter() == old(tl).counter(),
    {
        self.total_retained = self.total_retained.wrapping_sub(size);
        match cell_get_mut(&mut self.state) {
            Some(state) => {
                if state.outstanding_allocs.contains(ptr) {
                    self.profiled_retained = self.profiled_retained.wrapping_sub(size);
                    let was_locked = tl.is_allocator_locked();
                    tl.set_allocator_lock();
                    match state.outstanding_allocs.remove(ptr) {
                        Some(alloc_info) => {
                            state.stack_stats.update_on_free(alloc_info.stack_hash(), size as u64);
                        },
                        None => {},
                    }
                    if !was_locked {
                        tl.release_allocator_lock();
                    }
                }
            },
            None => {},
        }
    }

    /// The stack with the given hash is counted for an allocation of `size`
    /// bytes at `ptr`.
    fn record_with_hash(
        &mut self,
        ptr: u64,
        size: usize,
        stack: StdCallstack,
        stack_hash: u64,
        now: u64,
    )
        requires
            old(self).wf(),
            now <= INDEX_MAX_VALUE,
            stack_hash == hash_frames(stack@),
            stack_hash <= INDEX_MAX_VALUE,
        ensures
            final(self).wf(),
            final(self)@ == old(self)@.sample_recorded(ptr, size, stack@, now),
    {
        self.ensure_state();
        self.profiled_allocated = self.profiled_allocated.wrapping_add(size);
        self.profiled_retained = self.profiled_retained.wrapping_add(size);
        match cell_get_mut(&mut self.state) {
            Some(state) => {
                state.stack_stats.upsert(stack_hash, stack, size as u64);
                state.outstanding_allocs.insert(ptr, AllocInfo::new(stack_hash, now));
            },
            None => {},
        }
    }

    /// Whether the statistics store knows the stack with the given hash.
    fn knows_stack(&self, stack_hash: u64) -> (known: bool)
        requires
            self.wf(),
        ensures
            known == self@.stats.contains_key(stack_hash),
    {
        match cell_get(&self.state) {
            Some(state) => state.stack_stats.contains(stack_hash),
            None => false,
        }
    }

    /// Denies a single allocation of `single_alloc_limit` bytes or more: the
    /// answer is null in place of `ptr`, and no counter, statistic or tracked
    /// address changes. Unless the thread's guard is locked, the answer
    /// carries a report with the call stack of the request.
    pub fn check_and_deny_giant_allocations(
        &mut self,
        tl: &mut YingThreadLocal,
        ptr: u64,
        size: usize,
    ) -> (outcome: AllocOutcome)
        requires
            old(self).wf(),
        ensures
            final(self).wf(),
            outcome.ptr == if old(self)@.denies(size) {
                0
            } else {
                ptr
            },
            old(self)@.denies(size) ==> denied_from(
                old(self)@,
                final(self)@,
                old(tl).locked(),
                size,
                report_view(outcome.denial_report),
            ),
            !old(self)@.denies(size) ==> final(self)@ == old(self)@ && outcome.denial_report
                is None,
            final(tl).locked() == old(tl).locked(),
            final(tl).counter() == old(tl).counter(),
    {
        if size >= self.single_alloc_limit {
            let mut report: Option<String> = None;
            if !tl.is_allocator_locked() {
                tl.set_allocator_lock();
                self.ensure_state();
                let mut bt = capture_unresolved();
                let stack = StdCallstack::from_backtrace_unresolved(&bt);
                match cell_get_mut(&mut self.state) {
                    Some(state) => {
                        populate_symbol_map(&mut bt, &mut state.symbol_map);
                        report = Some(denial_report(size, &stack, &state.symbol_map));
                    },
                    None => {},
                }
                tl.release_allocator_lock();
                assert(reported_from(old(self)@, self@, size, bt, report_view(report)));
            }
            AllocOutcome { ptr: 0, denial_report: report }
        } else {
            AllocOutcome { ptr, denial_report: None }
        }
    }

    /// Follows a request for `size` bytes that the underlying allocator
    /// answered with `ptr` (null where it failed). A request of
    /// `single_alloc_limit` bytes or more is denied. Otherwise a successful
    /// allocation counts as live, and one in `sampling_ratio` of those that
    /// arrive while the thread's guard is free is sampled: its call stack is
    /// captured, counted in the statistics, and the address is tracked.
    pub fn allocate(&mut self, tl: &mut YingThreadLocal, ptr: u64, size: usize) -> (outcome:
        AllocOutcome)
        requires
            old(self).wf(),
        ensures
            final(self).wf(),
            outcome.ptr == if old(self)@.denies(size) {
                0
            } else {
                ptr
            },
            allocated_at(
                old(self)@,
                final(self)@,
                old(tl).locked(),
                old(tl).counter(),
                ptr,
                size,
                report_view(outcome.denial_report),
            ),
            final(tl).locked() == old(tl).locked(),
            final(tl).counter() == if !old(self)@.denies(size) && ptr != 0 && !old(tl).locked() {
                next_count(old(tl).counter())
            } else {
                old(tl).counter()
            },
    {
        let outcome = self.check_and_deny_giant_allocations(tl, ptr, size);
        if outcome.ptr != 0 {
            self.total_retained = self.total_retained.wrapping_add(size);
            if !tl.is_allocator_locked() {
                if tl.should_sample(self.sampling_ratio) {
                    tl.set_allocator_lock();
                    let mut bt = capture_unresolved();
                    let stack = StdCallstack::from_backtrace_unresolved(&bt);
                    let stack_hash = stack.compute_hash();
                    let now = recent_epoch_millis();
                    if !self.knows_stack(stack_hash) {
                        self.ensure_state();
                        match cell_get_mut(&mut self.state) {
                            Some(state) => populate_symbol_map(&mut bt, &mut state.symbol_map),
                            None => {},
                        }
                    }
                    self.record_with_hash(ptr, size, stack, stack_hash, now);
                    tl.release_allocator_lock();
                    assert(sampled_from(old(self)@, self@, ptr, size, bt, now));
                }
            }
        }
        outcome
    }

    /// Follows the move of an allocation: `old_size` bytes at `ptr` became
    /// `new_size` bytes at `new_ptr`, the answer of the underlying allocator
    /// to the request for the new block (null where it failed). A new size of
    /// `single_alloc_limit` bytes or more is denied. Otherwise the retained
    /// bytes follow the change of size; a tracked allocation keeps its record
    /// and its timestamp under the new address, and its stack's allocated
    /// bytes follow the change of size, while the counts of allocations and
    /// frees stay.
    pub fn realloc(
        &mut self,
        tl: &mut YingThreadLocal,
        ptr: u64,
        old_size: usize,
        new_ptr: u64,
        new_size: usize,
    ) -> (outcome: AllocOutcome)
        requires
            old(self).wf(),
        ensures
            final(self).wf(),
            outcome.ptr == if old(self)@.denies(new_size) {
                0
            } else {
                new_ptr
            },
            reallocated_at(
                old(self)@,
                final(self)@,
                old(tl).locked(),
                ptr,
                old_size,
                new_ptr,
                new_size,
                report_view(outcome.denial_report),
            ),
            final(tl).locked() == old(tl).locked(),
            final(tl).counter() == old(tl).counter(),
    {
        let outcome = self.check_and_deny_giant_allocations(tl, new_ptr, new_size);
        if outcome.ptr != 0 {
            // 1. The process-wide counter.
            if new_size > old_size {
                self.total_retained = self.total_retained.wrapping_add(new_size - old_size);
            } else {
                self.total_retained = self.total_retained.wrapping_sub(old_size - new_size);
            }
            // 2. A tracked allocation moves with its record.
            match cell_get_mut(&mut self.state) {
                Some(state) => {
                    if state.outstanding_allocs.contains(ptr) {
                        if new_size > old_size {
                            self.profiled_retained = self.profiled_retained.wrapping_add(
                                new_size - old_size,
                            );
                        } else {
                            self.profiled_retained = self.profiled_retained.wrapping_sub(
                                old_size - new_size,
                            );
                        }
                        let was_locked = tl.is_allocator_locked();
                        tl.set_allocator_lock();
                        match state.outstanding_allocs.rekey(ptr, new_ptr) {
                            Some(alloc_info) => {
                                state.stack_stats.update_on_resize(
                                    alloc_info.stack_hash(),
                                    old_size as u64,
                                    new_size as u64,
                                );
                            },
                            None => {},
                        }
                        if !was_locked {
                            tl.release_allocator_lock();
                        }
                    }
                },
                None => {},
            }
        }
        outcome
    }

    /// The listed hashes are those of the statistics, each once, every stack
    /// stands under its own hash, and the views of a well-formed profiler
    /// hold finitely many entries.
    pub proof fn lemma_view(&self)
        requires
            self.wf(),
        ensures
            keyed_by_hash(self@.stats),
            self@.order.no_duplicates(),
            self@.order.to_set() == self@.stats.dom(),
            self@.stats.dom().finite(),
            self@.stats.dom().len() == self@.order.len(),
            self@.outstanding.dom().finite(),
            self@.symbols.dom().finite(),
            !self@.initialized ==> self@.stats.dom().is_empty() && self@.outstanding.dom().is_empty()
                && self@.symbols.dom().is_empty(),
    {
        match cell_value(self.state) {
            Some(state) => {
                state.stack_stats.lemma_hashes();
                state.outstanding_allocs.lemma_wf();
                state.symbol_map.lemma_finite();
            },
            None => {},
        }
    }

    /// The stacks with their metric, one pair for each stack, in the order of
    /// the store: the allocated bytes where `by_retained` is false, else the
    /// retained bytes.
    fn list_stacks(&self, by_retained: bool) -> (items: Vec<(u64, u64)>)
        requires
            self.wf(),
        ensures
            items@ == listing(self@, by_retained),
    {
        let mut items: Vec<(u64, u64)> = Vec::new();
        match cell_get(&self.state) {
            Some(state) => {
                let mut i: usize = 0;
                while i < state.stack_stats.len()
                    invariant
                        state.wf(),
                        cell_value(self.state) == Some(*state),
                        i <= state.stack_stats.hashes().len(),
                        items@ == listing(self@, by_retained).subrange(0, i as int),
                    decreases state.stack_stats.hashes().len() - i,
                {
                    let stack_hash = state.stack_stats.hash_at(i);
                    let stats = state.stack_stats.stats_at(i);
                    let metric = if by_retained {
                        stats.retained_profiled_bytes()
                    } else {
                        stats.allocated_bytes
                    };
                    items.push((stack_hash, metric));
                    i += 1;
                }
            },
            None => {},
        }
        items
    }

    /// The statistics of the first `k` stacks of a ranking by the chosen
    /// metric.
    fn top_k_stacks(&self, k: usize, by_retained: bool) -> (top: Vec<StackStats>)
        requires
            self.wf(),
        ensures
            is_top_k(self@, by_retained, k, stats_views(top@)),
    {
        let ranked = sort_desc(&self.list_stacks(by_retained));
        let mut top: Vec<StackStats> = Vec::new();
        let mut i: usize = 0;
        while i < ranked.len() && i < k
            invariant
                self.wf(),
                is_ranking(listing(self@, by_retained), ranked@),
                i <= ranked.len(),
                i <= k,
                top@.len() == i,
                forall|j: int|
                    0 <= j < i ==> self@.stats.contains_key((#[trigger] ranked@[j]).0) && top@[j]@
                        == self@.stats[ranked@[j].0],
            decreases ranked.len() - i,
        {
            proof {
                // A pair of the ranking is a pair of the listing, so its hash
                // is in the store.
                self.lemma_view();
                lemma_ranking_members(listing(self@, by_retained), ranked@, i as int);
            }
            match get_stats_for_stack_hash(self, ranked[i].0) {
                Some(stats) => top.push(stats),
                None => {},
            }
            i += 1;
        }
        assert(hydrated(self@.stats, ranked@, k, stats_views(top@)));
        top
    }

    /// The `k` stacks with the most profiled bytes allocated, in descending
    /// order, or all stacks where there are fewer. Runs with the profiler
    /// locked out on this thread.
    pub fn top_k_stacks_by_allocated(&self, tl: &mut YingThreadLocal, k: usize) -> (top: Vec<
        StackStats,
    >)
        requires
            self.wf(),
            !old(tl).locked(),
        ensures
            is_top_k(self@, false, k, stats_views(top@)),
            !final(tl).locked(),
            final(tl).counter() == old(tl).counter(),
    {
        let rank = |held: &YingThreadLocal| -> (top: Vec<StackStats>)
            requires
                self.wf(),
                held.locked(),
            ensures
                is_top_k(self@, false, k, stats_views(top@)),
            { self.top_k_stacks(k, false) };
        lock_out_profiler(tl, rank)
    }

    /// The `k` stacks with the most profiled bytes retained, in descending
    /// order, or all stacks where there are fewer. Runs with the profiler
    /// locked out on this thread.
    pub fn top_k_stacks_by_retained(&self, tl: &mut YingThreadLocal, k: usize) -> (top: Vec<
        StackStats,
    >)
        requires
            self.wf(),
            !old(tl).locked(),
        ensures
            is_top_k(self@, true, k, stats_views(top@)),
            !final(tl).locked(),
            final(tl).counter() == old(tl).counter(),
    {
        let rank = |held: &YingThreadLocal| -> (top: Vec<StackStats>)
            requires
                self.wf(),
                held.locked(),
            ensures
                is_top_k(self@, true, k, stats_views(top@)),
            { self.top_k_stacks(k, true) };
        lock_out_profiler(tl, rank)
    }
}

/// The stacks of the statistics store with their metric, in the order in
/// which the stacks came: the allocated bytes where `by_retained` is false,
/// else the retained bytes.
pub open spec fn listing(profiler: ProfilerView, by_retained: bool) -> Seq<(u64, u64)> {
    Seq::new(
        profiler.order.len(),
        |i: int|
            (
                profiler.order[i],
                if by_retained {
                    profiler.stats[profiler.order[i]].retained()
                } else {
                    profiler.stats[profiler.order[i]].allocated_bytes
                },
            ),
    )
}

/// The views of a list of statistics.
pub open spec fn stats_views(list: Seq<StackStats>) -> Seq<StackStatsView> {
    Seq::new(list.len(), |i: int| list[i]@)
}

/// Whether `top` holds the statistics of the first `k` stacks of `ranked`,
/// or of all where `ranked` has fewer.
pub open spec fn hydrated(
    stats: Map<u64, StackStatsView>,
    ranked: Seq<(u64, u64)>,
    k: usize,
    top: Seq<StackStatsView>,
) -> bool {
    &&& top.len() == if k <= ranked.len() {
        k as nat
    } else {
        ranked.len()
    }
    &&& forall|i: int|
        0 <= i < top.len() ==> stats.contains_key((#[trigger] ranked[i]).0) && top[i]
            == stats[ranked[i].0]
}

/// Whether `top` holds the statistics of the `k` first stacks of some ranking
/// of the store by the chosen metric. Between stacks with the same metric any
/// order is a ranking.
pub open spec fn is_top_k(
    profiler: ProfilerView,
    by_retained: bool,
    k: usize,
    top: Seq<StackStatsView>,
) -> bool {
    exists|ranked: Seq<(u64, u64)>|
        is_ranking(listing(profiler, by_retained), ranked) && #[trigger] hydrated(
            profiler.stats,
            ranked,
            k,
            top,
        )
}

/// A copy of the statistics of the stack with the given hash, if the store
/// knows it.
pub fn get_stats_for_stack_hash(profiler: &YingProfiler, stack_hash: u64) -> (found: Option<
    StackStats,
>)
    requires
        profiler.wf(),
    ensures
        found is Some <==> profiler@.stats.contains_key(stack_hash),
        found matches Some(stats) ==> stats@ == profiler@.stats[stack_hash],
{
    match cell_get(&profiler.state) {
        Some(state) => state.stack_stats.get(stack_hash),
        None => None,
    }
}

/// The stacks with their profiled bytes allocated, from the most bytes to the
/// fewest.
pub fn stack_list_allocated_bytes_desc(profiler: &YingProfiler) -> (items: Vec<(u64, u64)>)
    requires
        profiler.wf(),
    ensures
        is_ranking(listing(profiler@, false), items@),
{
    sort_desc(&profiler.list_stacks(false))
}

/// The stacks with their profiled bytes retained, from the most bytes to the
/// fewest.
pub fn stack_list_retained_bytes_desc(profiler: &YingProfiler) -> (items: Vec<(u64, u64)>)
    requires
        profiler.wf(),
    ensures
        is_ranking(listing(profiler@, true), items@),
{
    sort_desc(&profiler.list_stacks(true))
}

/// Empties the statistics store and the tracker of outstanding allocations.
/// The counters and the symbol cache stay.
pub fn reset_state_for_testing_only(profiler: &mut YingProfiler)
    requires
        old(profiler).wf(),
    ensures
        final(profiler).wf(),
        final(profiler)@ == (ProfilerView {
            stats: Map::empty(),
            order: Seq::empty(),
            outstanding: Map::empty(),
            ..old(profiler)@
        }),
{
    match cell_get_mut(&mut profiler.state) {
        Some(state) => {
            state.stack_stats.clear();
            state.outstanding_allocs.clear();
        },
        None => {},
    }
}

/// `part` in hundredths of `whole`, rounded down; zero where `whole` is zero,
/// and the largest number where the result would not fit.
pub open spec fn percent(part: u64, whole: u64) -> u64 {
    if whole == 0 {
        0
    } else if part * 100 / (whole as int) > u64::MAX {
        u64::MAX
    } else {
        (part * 100 / (whole as int)) as u64
    }
}

/// Computes `part` in hundredths of `whole`.
pub fn percent_of(part: u64, whole: u64) -> (hundredths: u64)
    ensures
        hundredths == percent(part, whole),
{
    if whole == 0 {
        0
    } else {
        let wide: u128 = (part as u128) * 100 / (whole as u128);
        if wide > u64::MAX as u128 {
            u64::MAX
        } else {
            wide as u64
        }
    }
}

/// The line of a report that names the attached context, if there is one.
pub open spec fn context_text(context: Option<u64>) -> Seq<char> {
    match context {
        Some(id) => "context: "@ + decimal_text(id as nat) + "\n"@,
        None => Seq::empty(),
    }
}

/// The report of one stack: its allocated bytes with their share of all
/// profiled bytes, its freed bytes with their share of the allocated ones,
/// the attached context, and the stack itself.
pub open spec fn report_text(
    stats: StackStatsView,
    profiled: usize,
    trace: Seq<char>,
) -> Seq<char> {
    decimal_text(stats.allocated_bytes as nat) + " bytes allocated ("@ + decimal_text(
        percent(stats.allocated_bytes, profiled as u64) as nat,
    ) + "% of profiled bytes) in "@ + decimal_text(stats.num_allocations as nat)
        + " allocations, "@ + decimal_text(stats.freed_bytes as nat) + " bytes freed ("@
        + decimal_text(percent(stats.freed_bytes, stats.allocated_bytes) as nat) + "%) in "@
        + decimal_text(stats.num_frees as nat) + " frees\n"@ + context_text(stats.context)
        + trace
}

impl StackStats {
    /// A report of this stack for a reader: the bytes it allocated, as a
    /// number and as a share of all bytes that `profiler` sampled, the bytes
    /// it freed, the context attached to it, and the stack with the symbols
    /// that `profiler` has for it, with source files where `with_filenames`
    /// asks for them.
    pub fn rich_report(&self, profiler: &YingProfiler, with_filenames: bool) -> (text: String)
        ensures
            text@ == report_text(
                self@,
                profiler@.profiled_allocated,
                stack_text(profiler@.symbols, self.stack@, with_filenames),
            ),
    {
        let mut text = decimal_string(self.allocated_bytes);
        text.append(" bytes allocated (");
        text.append(
            decimal_string(percent_of(self.allocated_bytes, profiler.profiled_allocated as u64)).as_str(),
        );
        text.append("% of profiled bytes) in ");
        text.append(decimal_string(self.num_allocations).as_str());
        text.append(" allocations, ");
        text.append(decimal_string(self.freed_bytes).as_str());
        text.append(" bytes freed (");
        text.append(decimal_string(percent_of(self.freed_bytes, self.allocated_bytes)).as_str());
        text.append("%) in ");
        text.append(decimal_string(self.num_frees).as_str());
        text.append(" frees\n");
        match self.context {
            Some(id) => {
                text.append("context: ");
                text.append(decimal_string(id).as_str());
                text.append("\n");
            },
            None => {},
        }
        let trace = match cell_get(&profiler.state) {
            Some(state) => if with_filenames {
                self.stack.with_symbols_and_filename(&state.symbol_map)
            } else {
                self.stack.with_symbols(&state.symbol_map)
            },
            None => {
                let empty = SymbolMap::new();
                if with_filenames {
                    self.stack.with_symbols_and_filename(&empty)
                } else {
                    self.stack.with_symbols(&empty)
                }
            },
        };
        text.append(trace.as_str());
        text
    }
}

} // verus!

//! What holds of the profiler's counters over whole runs: the retained bytes
//! are the bytes of the live allocations, and no stack has freed more than
//! it allocated.

use crate::callstack::{hash_frames, kept_frames};
use crate::trace::backtrace_ips;
use backtrace::Backtrace;
use crate::profiler::{
    allocated_at, denied_from, hydrated, is_top_k, listing, reallocated_at, resize_count,
    sampled_from, ProfilerView,
};
use crate::ranking::{is_ranking, lemma_ranking_first_is_largest, lemma_ranking_members};
use crate::stats::StackStatsView;
use crate::tracker::AllocInfo;
use vstd::arithmetic::div_mod::*;
use vstd::prelude::*;

verus! {

/// The sum of the sizes in a finite map from addresses to sizes.
pub open spec fn total_size(sizes: Map<u64, nat>) -> nat
    decreases sizes.dom().len(),
    when sizes.dom().finite()
{
    if sizes.dom().is_empty() {
        0
    } else {
        let addr = sizes.dom().choose();
        sizes[addr] + total_size(sizes.remove(addr))
    }
}

/// Taking one address out lowers the sum by its size.
pub proof fn lemma_total_remove(sizes: Map<u64, nat>, addr: u64)
    requires
        sizes.dom().finite(),
        sizes.contains_key(addr),
    ensures
        total_size(sizes) == sizes[addr] + total_size(sizes.remove(addr)),
    decreases sizes.dom().len(),
{
    let first = sizes.dom().choose();
    if first != addr {
        lemma_total_remove(sizes.remove(first), addr);
        lemma_total_remove(sizes.remove(addr), first);
        assert(sizes.remove(first).remove(addr) =~= sizes.remove(addr).remove(first));
    }
}

/// A new address raises the sum by its size.
pub proof fn lemma_total_insert(sizes: Map<u64, nat>, addr: u64, size: nat)
    requires
        sizes.dom().finite(),
        !sizes.contains_key(addr),
    ensures
        total_size(sizes.insert(addr, size)) == total_size(sizes) + size,
{
    lemma_total_remove(sizes.insert(addr, size), addr);
    assert(sizes.insert(addr, size).remove(addr) =~= sizes);
}

/// An event on the heap, as the profiler is told of it.
pub enum HeapEvent {
    /// `size` bytes were asked for, and the underlying allocator answered
    /// `ptr`, null where it failed.
    Allocate { ptr: u64, size: usize },
    /// The `size` bytes at `ptr` were released.
    Free { ptr: u64, size: usize },
    /// The `old_size` bytes at `ptr` were to become `new_size` bytes, and the
    /// underlying allocator answered `new_ptr` for the new block.
    Move { ptr: u64, old_size: usize, new_ptr: u64, new_size: usize },
}

/// Whether a request for `size` bytes that was answered with `ptr` leaves a
/// live allocation: the answer is not null and the size is under the limit.
pub open spec fn granted(limit: usize, ptr: u64, size: usize) -> bool {
    ptr != 0 && size < limit
}

/// The retained bytes that the profiler counts after an event.
pub open spec fn counted(limit: usize, retained: usize, event: HeapEvent) -> usize {
    match event {
        HeapEvent::Allocate { ptr, size } => if granted(limit, ptr, size) {
            retained.wrapping_add(size)
        } else {
            retained
        },
        HeapEvent::Free { ptr, size } => retained.wrapping_sub(size),
        HeapEvent::Move { ptr, old_size, new_ptr, new_size } => if granted(
            limit,
            new_ptr,
            new_size,
        ) {
            resize_count(retained, old_size, new_size)
        } else {
            retained
        },
    }
}

/// The live allocations, each address with its size, after an event.
pub open spec fn lives(limit: usize, live: Map<u64, nat>, event: HeapEvent) -> Map<u64, nat> {
    match event {
        HeapEvent::Allocate { ptr, size } => if granted(limit, ptr, size) {
            live.insert(ptr, size as nat)
        } else {
            live
        },
        HeapEvent::Free { ptr, size } => live.remove(ptr),
        HeapEvent::Move { ptr, old_size, new_ptr, new_size } => if granted(
            limit,
            new_ptr,
            new_size,
        ) {
            live.remove(ptr).insert(new_ptr, new_size as nat)
        } else {
            live
        },
    }
}

/// Whether an event is one that a heap with the live allocations `live` can
/// bring: a new block has an address that is not live, and what is freed or
/// moved is live with the size that the event names.
pub open spec fn permitted(limit: usize, live: Map<u64, nat>, event: HeapEvent) -> bool {
    match event {
        HeapEvent::Allocate { ptr, size } => granted(limit, ptr, size) ==> !live.contains_key(ptr),
        HeapEvent::Free { ptr, size } => live.contains_key(ptr) && live[ptr] == size,
        HeapEvent::Move { ptr, old_size, new_ptr, new_size } => {
            &&& live.contains_key(ptr)
            &&& live[ptr] == old_size
            &&& granted(limit, new_ptr, new_size) ==> !live.contains_key(new_ptr)
        },
    }
}

/// The retained bytes that the profiler counts after a run of events.
pub open spec fn counted_all(limit: usize, retained: usize, events: Seq<HeapEvent>) -> usize
    decreases events.len(),
{
    if events.len() == 0 {
        retained
    } else {
        counted(limit, counted_all(limit, retained, events.drop_last()), events.last())
    }
}

/// The live allocations after a run of events.
pub open spec fn lives_all(limit: usize, live: Map<u64, nat>, events: Seq<HeapEvent>) -> Map<
    u64,
    nat,
>
    decreases events.len(),
{
    if events.len() == 0 {
        live
    } else {
        lives(limit, lives_all(limit, live, events.drop_last()), events.last())
    }
}

/// Whether each event of a run is permitted when it comes.
pub open spec fn permitted_all(limit: usize, live: Map<u64, nat>, events: Seq<HeapEvent>) -> bool
    decreases events.len(),
{
    if events.len() == 0 {
        true
    } else {
        &&& permitted_all(limit, live, events.drop_last())
        &&& permitted(limit, lives_all(limit, live, events.drop_last()), events.last())
    }
}

/// The number of values of a counter: it counts modulo this number.
pub open spec fn counter_range() -> int {
    usize::MAX + 1
}

/// One permitted event keeps the counter in step with the live bytes: where
/// the counter was the sum of the live sizes, modulo the counter's range,
/// before the event, it is so after it.
pub proof fn lemma_event_keeps_count(
    limit: usize,
    retained: usize,
    live: Map<u64, nat>,
    event: HeapEvent,
)
    requires
        live.dom().finite(),
        permitted(limit, live, event),
        retained == total_size(live) % (counter_range() as nat),
    ensures
        lives(limit, live, event).dom().finite(),
        counted(limit, retained, event) == total_size(lives(limit, live, event)) % (
        counter_range() as nat),
{
    let range = counter_range();
    let total = total_size(live) as int;
    match event {
        HeapEvent::Allocate { ptr, size } => {
            if granted(limit, ptr, size) {
                lemma_total_insert(live, ptr, size as nat);
                lemma_add_mod_noop(total, size as int, range);
                lemma_small_mod(size as nat, range as nat);
                lemma_wrapped_sum(retained, size);
            }
        },
        HeapEvent::Free { ptr, size } => {
            lemma_total_remove(live, ptr);
            lemma_sub_mod_noop(total, size as int, range);
            lemma_small_mod(size as nat, range as nat);
            lemma_wrapped_difference(retained, size);
        },
        HeapEvent::Move { ptr, old_size, new_ptr, new_size } => {
            if granted(limit, new_ptr, new_size) {
                lemma_total_remove(live, ptr);
                lemma_total_insert(live.remove(ptr), new_ptr, new_size as nat);
                if new_size > old_size {
                    let grow = (new_size - old_size) as usize;
                    lemma_add_mod_noop(total, grow as int, range);
                    lemma_small_mod(grow as nat, range as nat);
                    lemma_wrapped_sum(retained, grow);
                } else {
                    let shrink = (old_size - new_size) as usize;
                    lemma_sub_mod_noop(total, shrink as int, range);
                    lemma_small_mod(shrink as nat, range as nat);
                    lemma_wrapped_difference(retained, shrink);
                }
            }
        },
    }
}

/// A wrapping sum is the sum modulo the counter's range.
pub proof fn lemma_wrapped_sum(count: usize, size: usize)
    ensures
        count.wrapping_add(size) == (count + size) % counter_range(),
{
    let range = counter_range();
    if count + size > usize::MAX {
        lemma_mod_sub_multiples_vanish(count + size, range);
        lemma_small_mod((count + size - range) as nat, range as nat);
    } else {
        lemma_small_mod((count + size) as nat, range as nat);
    }
}

/// A wrapping difference is the difference modulo the counter's range.
pub proof fn lemma_wrapped_difference(count: usize, size: usize)
    ensures
        count.wrapping_sub(size) == (count - size) % counter_range(),
{
    let range = counter_range();
    if count - size < 0 {
        lemma_mod_add_multiples_vanish(count - size, range);
        lemma_small_mod((count - size + range) as nat, range as nat);
    } else {
        lemma_small_mod((count - size) as nat, range as nat);
    }
}

/// After every run of permitted events that starts with no live allocation
/// and a counter of zero, the retained bytes that the profiler counts are
/// the sum of the sizes of the live allocations, modulo the counter's range;
/// they are that sum itself where it fits the counter.
pub proof fn lemma_retained_is_live_total(limit: usize, events: Seq<HeapEvent>)
    requires
        permitted_all(limit, Map::empty(), events),
    ensures
        lives_all(limit, Map::empty(), events).dom().finite(),
        counted_all(limit, 0, events) == total_size(lives_all(limit, Map::empty(), events)) % (
        counter_range() as nat),
        total_size(lives_all(limit, Map::empty(), events)) <= usize::MAX ==> counted_all(
            limit,
            0,
            events,
        ) == total_size(lives_all(limit, Map::empty(), events)),
    decreases events.len(),
{
    let range = counter_range();
    if events.len() == 0 {
        lemma_small_mod(0, range as nat);
    } else {
        lemma_retained_is_live_total(limit, events.drop_last());
        lemma_event_keeps_count(
            limit,
            counted_all(limit, 0, events.drop_last()),
            lives_all(limit, Map::empty(), events.drop_last()),
            events.last(),
        );
    }
    let total = total_size(lives_all(limit, Map::empty(), events));
    if total <= usize::MAX {
        lemma_small_mod(total, range as nat);
    }
}

/// `allocate` counts as `counted` says: what it leaves of the retained bytes
/// is what `lemma_retained_is_live_total` speaks of.
pub proof fn lemma_allocate_counts(
    before: ProfilerView,
    after: ProfilerView,
    locked: bool,
    counter: u32,
    ptr: u64,
    size: usize,
    report: Option<Seq<char>>,
)
    requires
        allocated_at(before, after, locked, counter, ptr, size, report),
    ensures
        after.single_alloc_limit == before.single_alloc_limit,
        after.total_retained == counted(
            before.single_alloc_limit,
            before.total_retained,
            HeapEvent::Allocate { ptr, size },
        ),
{
}

/// `dealloc` counts as `counted` says.
pub proof fn lemma_dealloc_counts(before: ProfilerView, ptr: u64, size: usize)
    ensures
        before.freed_at(ptr, size).single_alloc_limit == before.single_alloc_limit,
        before.freed_at(ptr, size).total_retained == counted(
            before.single_alloc_limit,
            before.total_retained,
            HeapEvent::Free { ptr, size },
        ),
{
}

/// `realloc` counts as `counted` says.
pub proof fn lemma_realloc_counts(
    before: ProfilerView,
    after: ProfilerView,
    locked: bool,
    ptr: u64,
    old_size: usize,
    new_ptr: u64,
    new_size: usize,
    report: Option<Seq<char>>,
)
    requires
        reallocated_at(before, after, locked, ptr, old_size, new_ptr, new_size, report),
    ensures
        after.single_alloc_limit == before.single_alloc_limit,
        after.total_retained == counted(
            before.single_alloc_limit,
            before.total_retained,
            HeapEvent::Move { ptr, old_size, new_ptr, new_size },
        ),
{
}

/// A denied request changes no accounting: the counters, the statistics and
/// the tracked allocations are after it what they were before.
pub proof fn lemma_denial_keeps_accounting(
    before: ProfilerView,
    after: ProfilerView,
    locked: bool,
    size: usize,
    report: Option<Seq<char>>,
)
    requires
        denied_from(before, after, locked, size, report),
    ensures
        after.total_retained == before.total_retained,
        after.profiled_allocated == before.profiled_allocated,
        after.profiled_retained == before.profiled_retained,
        after.stats == before.stats,
        after.order == before.order,
        after.outstanding == before.outstanding,
{
}

/// The symbol cache only grows: whatever an allocation event does, every
/// entry that the cache held before stands in it unchanged after.
pub proof fn lemma_symbols_stay(
    before: ProfilerView,
    after: ProfilerView,
    locked: bool,
    counter: u32,
    ptr: u64,
    size: usize,
    report: Option<Seq<char>>,
    ip: u64,
)
    requires
        allocated_at(before, after, locked, counter, ptr, size, report),
        before.symbols.contains_key(ip),
    ensures
        after.symbols.contains_key(ip),
        after.symbols[ip] == before.symbols[ip],
{
}

/// With the sample counter at zero, as it is on a new thread and after
/// `testing_only_guarantee_next_sample`, an allocation that succeeds while
/// the guard is free is sampled, whatever the sampling ratio.
pub proof fn lemma_counter_at_zero_samples(
    before: ProfilerView,
    after: ProfilerView,
    ptr: u64,
    size: usize,
    report: Option<Seq<char>>,
)
    requires
        before.sampling_ratio > 0,
        allocated_at(before, after, false, 0, ptr, size, report),
        !before.denies(size),
        ptr != 0,
    ensures
        exists|trace: Backtrace, now: u64| #[trigger]
            sampled_from(before, after, ptr, size, trace, now),
        after.outstanding.contains_key(ptr),
        after.profiled_allocated == before.profiled_allocated.wrapping_add(size),
{
}

/// The tracked addresses whose allocation came from the stack `hash`.
pub open spec fn tracked_of(outstanding: Map<u64, AllocInfo>, hash: u64) -> Set<u64> {
    Set::new(|addr: u64| outstanding.contains_key(addr) && outstanding[addr].0 == hash)
}

/// The bytes that the tracked allocations of the stack `hash` hold, where
/// `sizes` gives the size of each tracked allocation.
pub open spec fn held_by(outstanding: Map<u64, AllocInfo>, sizes: Map<u64, nat>, hash: u64) -> nat {
    total_size(sizes.restrict(tracked_of(outstanding, hash)))
}

/// Whether the statistics are in balance with the tracked allocations, whose
/// sizes `sizes` gives: every stack has allocated what it has freed and what
/// its tracked allocations hold, and every tracked allocation belongs to a
/// stack of the store, unless the store was full.
pub open spec fn balanced(profiler: ProfilerView, sizes: Map<u64, nat>) -> bool {
    &&& sizes.dom().finite()
    &&& sizes.dom() == profiler.outstanding.dom()
    &&& forall|hash: u64| #[trigger]
        profiler.stats.contains_key(hash) ==> profiler.stats[hash].allocated_bytes
            == profiler.stats[hash].freed_bytes + held_by(profiler.outstanding, sizes, hash)
    &&& forall|addr: u64| #[trigger]
        profiler.outstanding.contains_key(addr) ==> profiler.stats.contains_key(
            profiler.outstanding[addr].0,
        ) || !profiler.has_room()
}

/// No stack of a profiler in balance has freed more than it allocated, and
/// what it retains is what its tracked allocations hold.
pub proof fn lemma_balanced_never_overfreed(profiler: ProfilerView, sizes: Map<u64, nat>)
    requires
        balanced(profiler, sizes),
    ensures
        forall|hash: u64| #[trigger]
            profiler.stats.contains_key(hash) ==> profiler.stats[hash].freed_bytes
                <= profiler.stats[hash].allocated_bytes,
        forall|hash: u64| #[trigger]
            profiler.stats.contains_key(hash) ==> profiler.stats[hash].retained() == held_by(
                profiler.outstanding,
                sizes,
                hash,
            ),
{
}

/// A profiler without statistics and without tracked allocations is in
/// balance: so is a new one, and one after a reset.
pub proof fn lemma_empty_is_balanced(profiler: ProfilerView)
    requires
        profiler.stats == Map::<u64, StackStatsView>::empty(),
        profiler.outstanding == Map::<u64, AllocInfo>::empty(),
    ensures
        balanced(profiler, Map::empty()),
{
}

/// The bytes that a stack holds after a new address entered the tracker.
proof fn lemma_held_after_insert(
    outstanding: Map<u64, AllocInfo>,
    sizes: Map<u64, nat>,
    addr: u64,
    info: AllocInfo,
    size: nat,
    hash: u64,
)
    requires
        sizes.dom().finite(),
        sizes.dom() == outstanding.dom(),
        !outstanding.contains_key(addr),
    ensures
        held_by(outstanding.insert(addr, info), sizes.insert(addr, size), hash) == held_by(
            outstanding,
            sizes,
            hash,
        ) + if info.0 == hash {
            size
        } else {
            0
        },
{
    let before = sizes.restrict(tracked_of(outstanding, hash));
    let after = sizes.insert(addr, size).restrict(tracked_of(outstanding.insert(addr, info), hash));
    assert(before.dom() =~= sizes.dom().intersect(tracked_of(outstanding, hash)));
    if info.0 == hash {
        assert(after =~= before.insert(addr, size));
        lemma_total_insert(before, addr, size);
    } else {
        assert(after =~= before);
    }
}

/// The bytes that a stack holds after an address left the tracker.
proof fn lemma_held_after_remove(
    outstanding: Map<u64, AllocInfo>,
    sizes: Map<u64, nat>,
    addr: u64,
    hash: u64,
)
    requires
        sizes.dom().finite(),
        sizes.dom() == outstanding.dom(),
        outstanding.contains_key(addr),
    ensures
        held_by(outstanding, sizes, hash) == held_by(
            outstanding.remove(addr),
            sizes.remove(addr),
            hash,
        ) + if outstanding[addr].0 == hash {
            sizes[addr]
        } else {
            0
        },
{
    let before = sizes.restrict(tracked_of(outstanding, hash));
    let after = sizes.remove(addr).restrict(tracked_of(outstanding.remove(addr), hash));
    assert(before.dom() =~= sizes.dom().intersect(tracked_of(outstanding, hash)));
    if outstanding[addr].0 == hash {
        assert(after =~= before.remove(addr));
        lemma_total_remove(before, addr);
    } else {
        assert(after =~= before);
    }
}

/// A sampled allocation keeps the balance: where the address is not tracked
/// yet and the stack's allocated bytes do not run over, the profiler is in
/// balance after the sample was recorded, with the new allocation among the
/// tracked ones.
pub proof fn lemma_sample_keeps_balance(
    profiler: ProfilerView,
    sizes: Map<u64, nat>,
    ptr: u64,
    size: usize,
    stack: Seq<u64>,
    now: u64,
)
    requires
        balanced(profiler, sizes),
        !profiler.outstanding.contains_key(ptr),
        profiler.stats.contains_key(hash_frames(stack))
            ==> profiler.stats[hash_frames(stack)].allocated_bytes + size
            <= u64::MAX,
    ensures
        balanced(profiler.sample_recorded(ptr, size, stack, now), sizes.insert(ptr, size as nat)),
{
    let hash = hash_frames(stack);
    let after = profiler.sample_recorded(ptr, size, stack, now);
    let grown = sizes.insert(ptr, size as nat);
    assert forall|other: u64| #[trigger] after.stats.contains_key(other) implies after.stats[other].allocated_bytes
        == after.stats[other].freed_bytes + held_by(after.outstanding, grown, other) by {
        lemma_held_after_insert(
            profiler.outstanding,
            sizes,
            ptr,
            AllocInfo(hash, now),
            size as nat,
            other,
        );
        if other == hash && !profiler.stats.contains_key(hash) {
            // No tracked allocation belongs to a stack that the store, with
            // room left, does not know.
            let mine = sizes.restrict(tracked_of(profiler.outstanding, hash));
            assert(mine.dom() =~= Set::<u64>::empty()) by {
                assert forall|addr: u64| !mine.dom().contains(addr) by {
                    if profiler.outstanding.contains_key(addr) {
                        assert(profiler.stats.contains_key(profiler.outstanding[addr].0)
                            || !profiler.has_room());
                    }
                }
            }
        }
    }
}

/// A free keeps the balance: where a tracked allocation is freed with the
/// size it was allocated with, the profiler is
/// in balance after the free, with the allocation no longer among the
/// tracked ones.
pub proof fn lemma_dealloc_keeps_balance(
    profiler: ProfilerView,
    sizes: Map<u64, nat>,
    ptr: u64,
    size: usize,
)
    requires
        balanced(profiler, sizes),
        profiler.outstanding.contains_key(ptr) ==> sizes[ptr] == size,
    ensures
        balanced(profiler.freed_at(ptr, size), sizes.remove(ptr)),
{
    let after = profiler.freed_at(ptr, size);
    let left = sizes.remove(ptr);
    if profiler.outstanding.contains_key(ptr) {
        assert forall|other: u64| #[trigger] after.stats.contains_key(other) implies after.stats[other].allocated_bytes
            == after.stats[other].freed_bytes + held_by(after.outstanding, left, other) by {
            lemma_held_after_remove(profiler.outstanding, sizes, ptr, other);
        }
    } else {
        assert(left =~= sizes);
    }
}

/// A move keeps the balance: where a tracked allocation moves with the size
/// it had, the new address is not tracked,
/// and the stack's allocated bytes do not run over, the profiler is in
/// balance after the move, with the allocation tracked under its new address
/// and size.
pub proof fn lemma_move_keeps_balance(
    profiler: ProfilerView,
    sizes: Map<u64, nat>,
    ptr: u64,
    old_size: usize,
    new_ptr: u64,
    new_size: usize,
)
    requires
        balanced(profiler, sizes),
        profiler.outstanding.contains_key(ptr) ==> sizes[ptr] == old_size,
        new_ptr != ptr ==> !profiler.outstanding.contains_key(new_ptr),
        profiler.outstanding.contains_key(ptr) && profiler.stats.contains_key(
            profiler.outstanding[ptr].0,
        ) ==> profiler.stats[profiler.outstanding[ptr].0].allocated_bytes + new_size - old_size
            <= u64::MAX,
    ensures
        balanced(
            profiler.moved_at(ptr, old_size, new_ptr, new_size),
            if profiler.outstanding.contains_key(ptr) {
                sizes.remove(ptr).insert(new_ptr, new_size as nat)
            } else {
                sizes
            },
        ),
{
    let after = profiler.moved_at(ptr, old_size, new_ptr, new_size);
    if profiler.outstanding.contains_key(ptr) {
        let info = profiler.outstanding[ptr];
        let moved = sizes.remove(ptr).insert(new_ptr, new_size as nat);
        assert forall|other: u64| #[trigger] after.stats.contains_key(other) implies after.stats[other].allocated_bytes
            == after.stats[other].freed_bytes + held_by(after.outstanding, moved, other) by {
            lemma_held_after_remove(profiler.outstanding, sizes, ptr, other);
            lemma_held_after_insert(
                profiler.outstanding.remove(ptr),
                sizes.remove(ptr),
                new_ptr,
                info,
                new_size as nat,
                other,
            );
        }
    }
}

/// `allocate` keeps the balance, whatever the guard: where the address that
/// the underlying allocator answered is not tracked, and no
/// stack's allocated bytes run over, the profiler is in balance after the
/// event, with the allocation among the tracked ones if it was sampled.
pub proof fn lemma_allocate_keeps_balance(
    before: ProfilerView,
    after: ProfilerView,
    locked: bool,
    counter: u32,
    ptr: u64,
    size: usize,
    report: Option<Seq<char>>,
    sizes: Map<u64, nat>,
)
    requires
        balanced(before, sizes),
        allocated_at(before, after, locked, counter, ptr, size, report),
        !before.outstanding.contains_key(ptr),
        forall|hash: u64| #[trigger]
            before.stats.contains_key(hash) ==> before.stats[hash].allocated_bytes + size
                <= u64::MAX,
    ensures
        balanced(
            after,
            if after.outstanding.contains_key(ptr) {
                sizes.insert(ptr, size as nat)
            } else {
                sizes
            },
        ),
{
    if !before.denies(size) && ptr != 0 && !locked && counter % before.sampling_ratio == 0 {
        let (trace, now) = choose|trace: Backtrace, now: u64| #[trigger]
            sampled_from(before, after, ptr, size, trace, now);
        lemma_sample_keeps_balance(
            before,
            sizes,
            ptr,
            size,
            kept_frames(backtrace_ips(trace)),
            now,
        );
    }
}

/// `realloc` keeps the balance, whatever the guard: where a tracked
/// allocation moves with the size it had, the address that the underlying
/// allocator answered is not tracked, and the stack's allocated bytes do not
/// run over, the profiler is in balance after the event, with a tracked
/// allocation that moved tracked under its new address and size.
pub proof fn lemma_realloc_keeps_balance(
    before: ProfilerView,
    after: ProfilerView,
    locked: bool,
    ptr: u64,
    old_size: usize,
    new_ptr: u64,
    new_size: usize,
    report: Option<Seq<char>>,
    sizes: Map<u64, nat>,
)
    requires
        balanced(before, sizes),
        reallocated_at(before, after, locked, ptr, old_size, new_ptr, new_size, report),
        before.outstanding.contains_key(ptr) ==> sizes[ptr] == old_size,
        new_ptr != ptr ==> !before.outstanding.contains_key(new_ptr),
        before.outstanding.contains_key(ptr) && before.stats.contains_key(
            before.outstanding[ptr].0,
        ) ==> before.stats[before.outstanding[ptr].0].allocated_bytes + new_size - old_size
            <= u64::MAX,
    ensures
        balanced(
            after,
            if granted(before.single_alloc_limit, new_ptr, new_size)
                && before.outstanding.contains_key(ptr) {
                sizes.remove(ptr).insert(new_ptr, new_size as nat)
            } else {
                sizes
            },
        ),
{
    if !before.denies(new_size) && new_ptr != 0 {
        lemma_move_keeps_balance(before, sizes, ptr, old_size, new_ptr, new_size);
    }
}

/// An event that touches the statistics.
pub enum ProfiledEvent {
    /// The allocation of `size` bytes at `ptr` was sampled: it came from
    /// `stack` at the time `now`.
    Sample { ptr: u64, size: usize, stack: Seq<u64>, now: u64 },
    /// The `size` bytes at `ptr` were released.
    Free { ptr: u64, size: usize },
    /// The `old_size` bytes at `ptr` became `new_size` bytes at `new_ptr`.
    Move { ptr: u64, old_size: usize, new_ptr: u64, new_size: usize },
    /// The statistics and the tracker were emptied.
    Reset,
}

/// The profiler after an event.
pub open spec fn profiled(profiler: ProfilerView, event: ProfiledEvent) -> ProfilerView {
    match event {
        ProfiledEvent::Sample { ptr, size, stack, now } => profiler.retained_more(
            size,
        ).sample_recorded(ptr, size, stack, now),
        ProfiledEvent::Free { ptr, size } => profiler.freed_at(ptr, size),
        ProfiledEvent::Move { ptr, old_size, new_ptr, new_size } => profiler.moved_at(
            ptr,
            old_size,
            new_ptr,
            new_size,
        ),
        ProfiledEvent::Reset => ProfilerView {
            stats: Map::empty(),
            order: Seq::empty(),
            outstanding: Map::empty(),
            ..profiler
        },
    }
}

/// The sizes of the tracked allocations after an event.
pub open spec fn sized(profiler: ProfilerView, sizes: Map<u64, nat>, event: ProfiledEvent) -> Map<
    u64,
    nat,
> {
    match event {
        ProfiledEvent::Sample { ptr, size, stack, now } => sizes.insert(ptr, size as nat),
        ProfiledEvent::Free { ptr, size } => sizes.remove(ptr),
        ProfiledEvent::Move { ptr, old_size, new_ptr, new_size } => if profiler.outstanding.contains_key(
            ptr,
        ) {
            sizes.remove(ptr).insert(new_ptr, new_size as nat)
        } else {
            sizes
        },
        ProfiledEvent::Reset => Map::empty(),
    }
}

/// Whether an event is in order: a sampled allocation has an address that is
/// not tracked, a tracked allocation is freed or moved with the size it has,
/// a move leads to an address that is not tracked, and no stack's allocated
/// bytes run over.
pub open spec fn orderly(profiler: ProfilerView, sizes: Map<u64, nat>, event: ProfiledEvent) -> bool {
    match event {
        ProfiledEvent::Sample { ptr, size, stack, now } => {
            &&& !profiler.outstanding.contains_key(ptr)
            &&& profiler.stats.contains_key(hash_frames(stack))
                ==> profiler.stats[hash_frames(stack)].allocated_bytes + size <= u64::MAX
        },
        ProfiledEvent::Free { ptr, size } => profiler.outstanding.contains_key(ptr) ==> sizes[ptr]
            == size,
        ProfiledEvent::Move { ptr, old_size, new_ptr, new_size } => {
            &&& profiler.outstanding.contains_key(ptr) ==> sizes[ptr] == old_size
            &&& new_ptr != ptr ==> !profiler.outstanding.contains_key(new_ptr)
            &&& profiler.outstanding.contains_key(ptr) && profiler.stats.contains_key(
                profiler.outstanding[ptr].0,
            ) ==> profiler.stats[profiler.outstanding[ptr].0].allocated_bytes + new_size
                - old_size <= u64::MAX
        },
        ProfiledEvent::Reset => true,
    }
}

/// The profiler after a run of events.
pub open spec fn profiled_all(profiler: ProfilerView, events: Seq<ProfiledEvent>) -> ProfilerView
    decreases events.len(),
{
    if events.len() == 0 {
        profiler
    } else {
        profiled(profiled_all(profiler, events.drop_last()), events.last())
    }
}

/// The sizes of the tracked allocations after a run of events that started
/// with none.
pub open spec fn sized_all(profiler: ProfilerView, events: Seq<ProfiledEvent>) -> Map<u64, nat>
    decreases events.len(),
{
    if events.len() == 0 {
        Map::empty()
    } else {
        sized(
            profiled_all(profiler, events.drop_last()),
            sized_all(profiler, events.drop_last()),
            events.last(),
        )
    }
}

/// Whether every event of a run is in order when it comes.
pub open spec fn orderly_all(profiler: ProfilerView, events: Seq<ProfiledEvent>) -> bool
    decreases events.len(),
{
    if events.len() == 0 {
        true
    } else {
        &&& orderly_all(profiler, events.drop_last())
        &&& orderly(
            profiled_all(profiler, events.drop_last()),
            sized_all(profiler, events.drop_last()),
            events.last(),
        )
    }
}

/// After every run of events in order, on a profiler that started without
/// statistics and tracked allocations, the profiler is in balance: no stack
/// has freed more than it allocated, and every stack retains what its
/// tracked allocations hold. A run in order is in order up to each of its
/// events, so this holds wherever the run is observed.
pub proof fn lemma_run_keeps_balance(profiler: ProfilerView, events: Seq<ProfiledEvent>)
    requires
        profiler.stats == Map::<u64, StackStatsView>::empty(),
        profiler.outstanding == Map::<u64, AllocInfo>::empty(),
        orderly_all(profiler, events),
    ensures
        balanced(profiled_all(profiler, events), sized_all(profiler, events)),
        forall|hash: u64| #[trigger]
            profiled_all(profiler, events).stats.contains_key(hash) ==> profiled_all(
                profiler,
                events,
            ).stats[hash].freed_bytes <= profiled_all(profiler, events).stats[hash].allocated_bytes,
    decreases events.len(),
{
    if events.len() == 0 {
        lemma_empty_is_balanced(profiler);
    } else {
        lemma_run_keeps_balance(profiler, events.drop_last());
        let before = profiled_all(profiler, events.drop_last());
        let sizes = sized_all(profiler, events.drop_last());
        match events.last() {
            ProfiledEvent::Sample { ptr, size, stack, now } => {
                lemma_sample_keeps_balance(before.retained_more(size), sizes, ptr, size, stack, now);
            },
            ProfiledEvent::Free { ptr, size } => {
                lemma_dealloc_keeps_balance(before, sizes, ptr, size);
            },
            ProfiledEvent::Move { ptr, old_size, new_ptr, new_size } => {
                lemma_move_keeps_balance(before, sizes, ptr, old_size, new_ptr, new_size);
            },
            ProfiledEvent::Reset => {
                lemma_empty_is_balanced(profiled(before, ProfiledEvent::Reset));
            },
        }
    }
    lemma_balanced_never_overfreed(
        profiled_all(profiler, events),
        sized_all(profiler, events),
    );
}

/// An allocation that succeeds raises the retained bytes by its size, sampled
/// or not, where the sum fits the counter.
pub proof fn lemma_allocate_adds_size(
    before: ProfilerView,
    after: ProfilerView,
    locked: bool,
    counter: u32,
    ptr: u64,
    size: usize,
    report: Option<Seq<char>>,
)
    requires
        allocated_at(before, after, locked, counter, ptr, size, report),
        granted(before.single_alloc_limit, ptr, size),
        before.total_retained + size <= usize::MAX,
    ensures
        after.total_retained == before.total_retained + size,
{
}

/// A move that succeeds changes the retained bytes by the difference of the
/// two sizes, for growth and for shrinking alike, where the result fits the
/// counter.
pub proof fn lemma_realloc_moves_size(
    before: ProfilerView,
    after: ProfilerView,
    locked: bool,
    ptr: u64,
    old_size: usize,
    new_ptr: u64,
    new_size: usize,
    report: Option<Seq<char>>,
)
    requires
        reallocated_at(before, after, locked, ptr, old_size, new_ptr, new_size, report),
        granted(before.single_alloc_limit, new_ptr, new_size),
        0 <= before.total_retained - old_size + new_size <= usize::MAX,
    ensures
        after.total_retained == before.total_retained - old_size + new_size,
{
}

/// An allocation and the free of the same block leave
/// the retained bytes, the profiled retained bytes and the tracker as they
/// were. The profiled allocated bytes stay or have grown by the size, and the
/// free takes nothing from them.
pub proof fn lemma_allocate_then_dealloc(
    before: ProfilerView,
    between: ProfilerView,
    locked: bool,
    counter: u32,
    ptr: u64,
    size: usize,
    report: Option<Seq<char>>,
)
    requires
        allocated_at(before, between, locked, counter, ptr, size, report),
        granted(before.single_alloc_limit, ptr, size),
        !before.outstanding.contains_key(ptr),
    ensures
        between.freed_at(ptr, size).total_retained == before.total_retained,
        between.freed_at(ptr, size).profiled_retained == before.profiled_retained,
        between.freed_at(ptr, size).outstanding == before.outstanding,
        between.freed_at(ptr, size).profiled_allocated == between.profiled_allocated,
        between.profiled_allocated == before.profiled_allocated || between.profiled_allocated
            == before.profiled_allocated.wrapping_add(size),
{
    let after = between.freed_at(ptr, size);
    if !locked && counter % before.sampling_ratio == 0 {
        assert(after.outstanding =~= before.outstanding);
    }
}

/// A free lowers the retained bytes by the size, whether or not the address
/// was sampled, where that many bytes were retained.
pub proof fn lemma_dealloc_lowers_total(before: ProfilerView, ptr: u64, size: usize)
    requires
        before.total_retained >= size,
    ensures
        before.freed_at(ptr, size).total_retained == before.total_retained - size,
{
}

/// The free of a tracked address takes it out of the tracker, whatever the
/// guard: the address is not tracked afterwards, one allocation fewer is
/// outstanding, every other address is tracked as before, and the profiled
/// retained bytes have fallen by the size.
pub proof fn lemma_dealloc_forgets_address(before: ProfilerView, ptr: u64, size: usize)
    requires
        before.outstanding.contains_key(ptr),
        before.outstanding.dom().finite(),
    ensures
        !before.freed_at(ptr, size).outstanding.contains_key(ptr),
        before.freed_at(ptr, size).outstanding == before.outstanding.remove(ptr),
        before.freed_at(ptr, size).outstanding.dom().len() == before.outstanding.dom().len() - 1,
        before.freed_at(ptr, size).profiled_retained == before.profiled_retained.wrapping_sub(
            size,
        ),
{
}

/// The free of a tracked allocation counts for the
/// stack that made the allocation and for no other: that stack's freed bytes
/// grow by the size and its frees by one, where the sums fit; what it
/// allocated stays, and every other stack's counters stay.
pub proof fn lemma_dealloc_counts_for_one_stack(
    before: ProfilerView,
    ptr: u64,
    size: usize,
    other: u64,
)
    requires
        before.outstanding.contains_key(ptr),
        before.stats.contains_key(before.outstanding[ptr].0),
        before.stats[before.outstanding[ptr].0].freed_bytes + size <= u64::MAX,
        before.stats[before.outstanding[ptr].0].num_frees + 1 <= u64::MAX,
    ensures
        ({
            let hash = before.outstanding[ptr].0;
            let after = before.freed_at(ptr, size);
            &&& after.stats.dom() == before.stats.dom()
            &&& after.stats[hash].freed_bytes == before.stats[hash].freed_bytes + size
            &&& after.stats[hash].num_frees == before.stats[hash].num_frees + 1
            &&& after.stats[hash].allocated_bytes == before.stats[hash].allocated_bytes
            &&& after.stats[hash].num_allocations == before.stats[hash].num_allocations
            &&& other != hash && before.stats.contains_key(other) ==> after.stats[other]
                == before.stats[other]
        }),
{
    let hash = before.outstanding[ptr].0;
    let after = before.freed_at(ptr, size);
    assert(after.stats.dom() =~= before.stats.dom());
}

/// The free of a tracked allocation lowers what its
/// stack retains by the size, where the stack had that much retained.
pub proof fn lemma_dealloc_lowers_retained(before: ProfilerView, ptr: u64, size: usize)
    requires
        before.outstanding.contains_key(ptr),
        before.stats.contains_key(before.outstanding[ptr].0),
        before.stats[before.outstanding[ptr].0].freed_bytes + size
            <= before.stats[before.outstanding[ptr].0].allocated_bytes,
    ensures
        before.freed_at(ptr, size).stats[before.outstanding[ptr].0].retained()
            == before.stats[before.outstanding[ptr].0].retained() - size,
{
}

/// Recording a sample keeps the order of freed and allocated bytes: where no
/// stack had freed more than it allocated, and the stack's allocated bytes do
/// not run over, none has afterwards. A stack that enters the store with the
/// sample has no frees.
pub proof fn lemma_sample_keeps_order(
    before: ProfilerView,
    ptr: u64,
    size: usize,
    stack: Seq<u64>,
    now: u64,
    hash: u64,
)
    requires
        forall|known: u64| #[trigger]
            before.stats.contains_key(known) ==> before.stats[known].freed_bytes
                <= before.stats[known].allocated_bytes,
        before.stats.contains_key(hash_frames(stack))
            ==> before.stats[hash_frames(stack)].allocated_bytes + size <= u64::MAX,
        before.sample_recorded(ptr, size, stack, now).stats.contains_key(hash),
    ensures
        ({
            let after = before.sample_recorded(ptr, size, stack, now);
            &&& after.stats[hash].freed_bytes <= after.stats[hash].allocated_bytes
            &&& !before.stats.contains_key(hash) ==> after.stats[hash].freed_bytes == 0
                && after.stats[hash].num_frees == 0 && after.stats[hash].allocated_bytes == size
                && after.stats[hash].num_allocations == 1
        }),
{
    if before.stats.contains_key(hash) {
        assert(before.stats[hash].freed_bytes <= before.stats[hash].allocated_bytes);
    }
}

/// Whether a stack's allocated bytes are `size` for each of its allocations.
pub open spec fn uniform(stats: StackStatsView, size: usize) -> bool {
    stats.allocated_bytes == size * stats.num_allocations
}

/// Samples of one size keep a stack uniform: where every allocation counted
/// for the stack so far had the size `size`, or the stack is new, and the
/// counters do not run over, the stack's allocated bytes are `size` times its
/// allocations after one more sample of that size, so that the bytes divided
/// by the allocations are `size` exactly.
pub proof fn lemma_sample_keeps_uniform(
    before: ProfilerView,
    ptr: u64,
    size: usize,
    stack: Seq<u64>,
    now: u64,
)
    requires
        before.has_room() || before.stats.contains_key(hash_frames(stack)),
        before.stats.contains_key(hash_frames(stack)) ==> {
            &&& uniform(before.stats[hash_frames(stack)], size)
            &&& before.stats[hash_frames(stack)].allocated_bytes + size <= u64::MAX
            &&& before.stats[hash_frames(stack)].num_allocations + 1 <= u64::MAX
        },
    ensures
        ({
            let after = before.sample_recorded(ptr, size, stack, now).stats[hash_frames(stack)];
            &&& before.sample_recorded(ptr, size, stack, now).stats.contains_key(
                hash_frames(stack),
            )
            &&& uniform(after, size)
            &&& after.num_allocations > 0
            &&& size > 0 ==> after.allocated_bytes / after.num_allocations == size
        }),
{
    let hash = hash_frames(stack);
    let after = before.sample_recorded(ptr, size, stack, now).stats[hash];
    if before.stats.contains_key(hash) {
        let count = before.stats[hash].num_allocations;
        assert(size * (count + 1) == size * count + size) by (nonlinear_arith);
    } else {
        assert(size * 1 == size) by (nonlinear_arith);
    }
    if size > 0 {
        let count = after.num_allocations as int;
        assert((size * count) / count == size) by (nonlinear_arith)
            requires
                count > 0,
        ;
    }
}

/// The first stack of a top-k list has the largest metric of all stacks in
/// the statistics store.
pub proof fn lemma_top_is_largest(
    profiler: ProfilerView,
    by_retained: bool,
    k: usize,
    top: Seq<StackStatsView>,
    at: int,
)
    requires
        is_top_k(profiler, by_retained, k, top),
        k > 0,
        0 <= at < profiler.order.len(),
    ensures
        top.len() > 0,
        if by_retained {
            top[0].retained() >= profiler.stats[profiler.order[at]].retained()
        } else {
            top[0].allocated_bytes >= profiler.stats[profiler.order[at]].allocated_bytes
        },
{
    let list = listing(profiler, by_retained);
    let ranked = choose|ranked: Seq<(u64, u64)>|
        is_ranking(list, ranked) && #[trigger] hydrated(profiler.stats, ranked, k, top);
    lemma_ranking_first_is_largest(list, ranked, at);
    // The first of the ranking is a pair of the listing, and so carries the
    // metric of its own stack.
    lemma_ranking_members(list, ranked, 0);
}

} // verus!

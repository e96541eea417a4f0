//! Per-thread sampling and re-entrancy state.

use vstd::prelude::*;

verus! {

/// State that each thread keeps for itself: whether the profiler is busy on
/// this thread, and how many allocation events the thread has offered for
/// sampling so far.
pub struct YingThreadLocal {
    alloc_locked: bool,
    sample_count: u32,
}

impl YingThreadLocal {
    /// The lock flag, as contracts see it.
    pub closed spec fn locked(&self) -> bool {
        self.alloc_locked
    }

    /// The sample counter, as contracts see it.
    pub closed spec fn counter(&self) -> u32 {
        self.sample_count
    }

    /// A fresh state: unlocked, with the counter at zero, so that the first
    /// event of a thread is eligible for sampling.
    pub fn new() -> (tl: Self)
        ensures
            !tl.locked(),
            tl.counter() == 0,
    {
        YingThreadLocal { alloc_locked: false, sample_count: 0 }
    }

    /// Whether the profiler is at work on this thread.
    pub fn is_allocator_locked(&self) -> (locked: bool)
        ensures
            locked == self.locked(),
    {
        self.alloc_locked
    }

    /// Marks the profiler as at work on this thread.
    pub fn set_allocator_lock(&mut self)
        ensures
            final(self).locked(),
            final(self).counter() == old(self).counter(),
    {
        self.alloc_locked = true;
    }

    /// Marks the profiler as done on this thread.
    pub fn release_allocator_lock(&mut self)
        ensures
            !final(self).locked(),
            final(self).counter() == old(self).counter(),
    {
        self.alloc_locked = false;
    }

    /// Decides whether the current event is sampled and advances the counter.
    /// The event is sampled exactly when the counter, before the call, is a
    /// multiple of `ratio`. The counter wraps around at `u32::MAX`.
    pub fn should_sample(&mut self, ratio: u32) -> (sampled: bool)
        requires
            ratio > 0,
        ensures
            sampled == (old(self).counter() % ratio == 0),
            final(self).counter() == next_count(old(self).counter()),
            final(self).locked() == old(self).locked(),
    {
        let counter: u32 = self.sample_count;
        self.sample_count = if counter == u32::MAX { 0 } else { counter + 1 };
        counter % ratio == 0
    }

    /// Puts the counter back to zero.
    pub fn test_only_reset_sampling_counter(&mut self)
        ensures
            final(self).counter() == 0,
            final(self).locked() == old(self).locked(),
    {
        self.sample_count = 0;
    }
}

/// The counter that follows `count`.
pub open spec fn next_count(count: u32) -> u32 {
    if count == u32::MAX { 0 } else { (count + 1) as u32 }
}

/// Makes sure that the next event on this thread is sampled, whatever the
/// sampling ratio.
pub fn testing_only_guarantee_next_sample(tl: &mut YingThreadLocal)
    ensures
        final(tl).counter() == 0,
        final(tl).locked() == old(tl).locked(),
{
    tl.test_only_reset_sampling_counter();
}

/// Runs `func` with the profiler locked out on this thread, so that
/// allocations made by `func` are not sampled, and frees the guard again.
/// `func` is handed the guard as it stands while it runs: locked, with the
/// sample counter where it was. The guard must be free on entry: a thread
/// that holds it would wait for itself. The guard is freed when `func` has
/// returned; where `func` panics, the guard stays held.
pub fn lock_out_profiler<R, F: FnOnce(&YingThreadLocal) -> R>(
    tl: &mut YingThreadLocal,
    func: F,
) -> (result: R)
    requires
        !old(tl).locked(),
        forall|held: YingThreadLocal|
            held.locked() && held.counter() == old(tl).counter() ==> #[trigger] func.requires(
                (&held,),
            ),
    ensures
        exists|held: YingThreadLocal|
            held.locked() && held.counter() == old(tl).counter() && #[trigger] func.ensures(
                (&held,),
                result,
            ),
        !final(tl).locked(),
        final(tl).counter() == old(tl).counter(),
{
    tl.set_allocator_lock();
    let result = func(&*tl);
    tl.release_allocator_lock();
    result
}

} // verus!

use std::collections::HashMap;

use ying_profiler::callstack::{FriendlySymbol, StdCallstack, SymbolMap, TOP_FRAMES_TO_SKIP};
use ying_profiler::guard::YingThreadLocal;
use ying_profiler::profiler::{
    denial_report, get_stats_for_stack_hash, percent_of, stack_list_allocated_bytes_desc,
    stack_list_retained_bytes_desc,
};
use ying_profiler::reset_state_for_testing_only;
use ying_profiler::testing_only_guarantee_next_sample;
use ying_profiler::tracker::AllocInfo;
use ying_profiler::YingProfiler;

const GIB: usize = 1024 * 1024 * 1024;

fn stack_of(frames: &[u64]) -> StdCallstack {
    let mut raw = vec![0u64; TOP_FRAMES_TO_SKIP];
    raw.extend_from_slice(frames);
    StdCallstack::from_frames(&raw)
}

fn hash_of(frames: &[u64]) -> u64 {
    stack_of(frames).compute_hash()
}

#[test]
fn retained_bytes_are_the_bytes_of_the_live_allocations() {
    let mut profiler = YingProfiler::new(3, 1 << 20);
    let mut tl = YingThreadLocal::new();
    let mut live: HashMap<u64, usize> = HashMap::new();
    let mut next: u64 = 0x1000;
    let mut state: u64 = 12345;
    for step in 0..3000u64 {
        state = state.wrapping_mul(6364136223846793005).wrapping_add(1442695040888963407);
        let choice = (state >> 33) % 4;
        let size = 16 + ((state >> 20) % 200) as usize;
        if choice <= 1 || live.is_empty() {
            let ptr = next;
            next += 0x100;
            assert_eq!(profiler.allocate(&mut tl, ptr, size).ptr, ptr);
            live.insert(ptr, size);
        } else if choice == 2 {
            let ptr = *live.keys().min().unwrap();
            let size = live.remove(&ptr).unwrap();
            profiler.dealloc(&mut tl, ptr, size);
        } else {
            let ptr = *live.keys().max().unwrap();
            let old_size = live.remove(&ptr).unwrap();
            let new_ptr = next;
            next += 0x100;
            assert_eq!(profiler.realloc(&mut tl, ptr, old_size, new_ptr, size).ptr, new_ptr);
            live.insert(new_ptr, size);
        }
        if step % 100 == 0 {
            assert_eq!(profiler.total_retained_bytes(), live.values().sum::<usize>());
        }
    }
    assert_eq!(profiler.total_retained_bytes(), live.values().sum::<usize>());
    for (ptr, size) in live.drain() {
        profiler.dealloc(&mut tl, ptr, size);
    }
    assert_eq!(profiler.total_retained_bytes(), 0);
    assert_eq!(profiler.profiled_bytes_retained(), 0);
    assert_eq!(profiler.num_outstanding_allocs(), 0);
}

#[test]
fn no_stack_has_freed_more_than_it_allocated() {
    let mut profiler = YingProfiler::new(2, 1 << 20);
    let mut tl = YingThreadLocal::new();
    let mut live: Vec<(u64, usize)> = Vec::new();
    for round in 0..20u64 {
        for n in 0..50u64 {
            let ptr = 0x1000 + (round * 50 + n) * 0x40;
            let size = 8 + (n as usize) * 3;
            profiler.allocate(&mut tl, ptr, size);
            live.push((ptr, size));
        }
        // Free every third live allocation, grow every fifth
        let mut kept = Vec::new();
        for (i, (ptr, size)) in live.drain(..).enumerate() {
            if i % 3 == 0 {
                profiler.dealloc(&mut tl, ptr, size);
            } else if i % 5 == 0 {
                let new_ptr = ptr + 0x1000_0000;
                profiler.realloc(&mut tl, ptr, size, new_ptr, size / 2 + 1);
                kept.push((new_ptr, size / 2 + 1));
            } else {
                kept.push((ptr, size));
            }
        }
        live = kept;
        for stats in profiler.top_k_stacks_by_allocated(&mut tl, 100) {
            assert!(stats.freed_bytes <= stats.allocated_bytes);
            assert!(stats.num_frees <= stats.num_allocations);
        }
    }
    let all = profiler.top_k_stacks_by_retained(&mut tl, 100);
    let retained: u64 = all.iter().map(|s| s.retained_profiled_bytes()).sum();
    assert_eq!(retained, profiler.profiled_bytes_retained() as u64);
}

#[test]
fn uniform_allocations_average_to_their_size() {
    let mut profiler = YingProfiler::new(5, 64 * GIB);
    let mut tl = YingThreadLocal::new();
    for n in 0..4000u64 {
        profiler.allocate(&mut tl, 0x10_0000 + n * 512, 512);
    }
    let top = profiler.top_k_stacks_by_allocated(&mut tl, 1);
    assert_eq!(top.len(), 1);
    assert_eq!(top[0].num_allocations, 800);
    assert_eq!(top[0].allocated_bytes, 800 * 512);
    assert_eq!(top[0].allocated_bytes / top[0].num_allocations, 512);
    assert_eq!(profiler.profiled_bytes_allocated(), 800 * 512);
    assert_eq!(profiler.profiled_bytes_retained(), 800 * 512);
    assert_eq!(profiler.num_outstanding_allocs(), 800);
    assert_eq!(profiler.total_retained_bytes(), 4000 * 512);
}

#[test]
fn freeing_half_of_a_batch_lowers_what_the_stack_retains() {
    let mut profiler = YingProfiler::new(1, 64 * GIB);
    let frames = [0x4000, 0x5000, 0x6000];
    for n in 0..100u64 {
        profiler.record_sampled_alloc(0x10_0000 + n * 512, 512, stack_of(&frames), 1000 + n);
    }
    let before = get_stats_for_stack_hash(&profiler, hash_of(&frames)).unwrap();
    assert_eq!(before.freed_bytes, 0);
    assert_eq!(before.retained_profiled_bytes(), 100 * 512);

    let mut tl = YingThreadLocal::new();
    for n in 0..50u64 {
        profiler.dealloc(&mut tl, 0x10_0000 + n * 512, 512);
    }
    let after = get_stats_for_stack_hash(&profiler, hash_of(&frames)).unwrap();
    assert!(after.freed_bytes > 0);
    assert_eq!(after.freed_bytes, 50 * 512);
    assert_eq!(after.num_frees, 50);
    assert!(after.retained_profiled_bytes() > 0);
    assert!(after.retained_profiled_bytes() < before.retained_profiled_bytes());
    assert_eq!(after.retained_profiled_bytes(), 50 * 512);
    assert_eq!(after.allocated_bytes, 100 * 512);
    assert_eq!(after.num_allocations, 100);
    assert_eq!(profiler.num_outstanding_allocs(), 50);
}

#[test]
fn giant_allocation_is_denied_and_changes_no_accounting() {
    let mut profiler = YingProfiler::new(1, 64 * GIB);
    let mut tl = YingThreadLocal::new();
    profiler.allocate(&mut tl, 0x1000, 100);
    profiler.allocate(&mut tl, 0x2000, 200);
    let stacks_before = stack_list_allocated_bytes_desc(&profiler);

    let outcome = profiler.allocate(&mut tl, 0x3000, 128 * GIB);
    assert_eq!(outcome.ptr, 0);
    let report = outcome.denial_report.unwrap();
    assert!(report.starts_with(
        "WARNING: Huge memory allocation of 137438953472 bytes denied by Ying profiler\nStack trace:\n"
    ));
    assert!(report.len() > 90);

    assert_eq!(profiler.total_retained_bytes(), 300);
    assert_eq!(profiler.profiled_bytes_allocated(), 300);
    assert_eq!(profiler.profiled_bytes_retained(), 300);
    assert_eq!(profiler.num_outstanding_allocs(), 2);
    assert_eq!(profiler.allocation_info(0x3000), None);
    assert_eq!(stack_list_allocated_bytes_desc(&profiler), stacks_before);
    assert!(!tl.is_allocator_locked());
    // The denial did not use up a turn of the sampler: the next allocation is sampled
    profiler.allocate(&mut tl, 0x4000, 50);
    assert_eq!(profiler.profiled_bytes_allocated(), 350);
}

#[test]
fn allocation_at_the_limit_is_denied_and_below_it_granted() {
    let mut profiler = YingProfiler::new(1, 4096);
    let mut tl = YingThreadLocal::new();
    assert_eq!(profiler.allocate(&mut tl, 0x1000, 4096).ptr, 0);
    assert_eq!(profiler.allocate(&mut tl, 0x1000, 4097).ptr, 0);
    assert_eq!(profiler.allocate(&mut tl, 0x1000, usize::MAX).ptr, 0);
    assert_eq!(profiler.total_retained_bytes(), 0);
    let granted = profiler.allocate(&mut tl, 0x1000, 4095);
    assert_eq!(granted.ptr, 0x1000);
    assert!(granted.denial_report.is_none());
    assert_eq!(profiler.total_retained_bytes(), 4095);
}

#[test]
fn denial_under_a_locked_guard_gives_no_report() {
    let mut profiler = YingProfiler::new(1, 4096);
    let mut tl = YingThreadLocal::new();
    tl.set_allocator_lock();
    let outcome = profiler.allocate(&mut tl, 0x1000, 5000);
    assert_eq!(outcome.ptr, 0);
    assert!(outcome.denial_report.is_none());
    assert!(tl.is_allocator_locked());
    assert!(!profiler.is_initialized());
    assert_eq!(profiler.symbol_map_size(), 0);
}

#[test]
fn failed_allocation_changes_nothing() {
    let mut profiler = YingProfiler::new(1, 4096);
    let mut tl = YingThreadLocal::new();
    let outcome = profiler.allocate(&mut tl, 0, 100);
    assert_eq!(outcome.ptr, 0);
    assert!(outcome.denial_report.is_none());
    assert_eq!(profiler.total_retained_bytes(), 0);
    assert_eq!(profiler.profiled_bytes_allocated(), 0);
    assert!(!profiler.is_initialized());
    // The sampler's turn is still to come
    profiler.allocate(&mut tl, 0x1000, 100);
    assert_eq!(profiler.profiled_bytes_allocated(), 100);
}

#[test]
fn reset_empties_the_statistics_and_the_tracker() {
    let mut profiler = YingProfiler::new(1, 64 * GIB);
    let mut tl = YingThreadLocal::new();
    for n in 0..100u64 {
        profiler.allocate(&mut tl, 0x1000 + n * 64, 64);
        profiler.record_sampled_alloc(0x10_0000 + n * 64, 64, stack_of(&[n, n + 1]), n);
    }
    assert_eq!(profiler.num_outstanding_allocs(), 200);
    assert_eq!(stack_list_allocated_bytes_desc(&profiler).len(), 101);
    let symbols = profiler.symbol_map_size();
    assert!(symbols > 0);

    reset_state_for_testing_only(&mut profiler);

    assert_eq!(profiler.num_outstanding_allocs(), 0);
    assert_eq!(stack_list_allocated_bytes_desc(&profiler).len(), 0);
    assert_eq!(stack_list_retained_bytes_desc(&profiler).len(), 0);
    assert!(profiler.top_k_stacks_by_allocated(&mut tl, 10).is_empty());
    assert!(profiler.top_k_stacks_by_retained(&mut tl, 10).is_empty());
    assert_eq!(profiler.allocation_info(0x1000), None);
    assert!(get_stats_for_stack_hash(&profiler, hash_of(&[1, 2])).is_none());
    // The counters and the symbol cache stay
    assert_eq!(profiler.total_retained_bytes(), 100 * 64);
    assert_eq!(profiler.profiled_bytes_allocated(), 200 * 64);
    assert_eq!(profiler.symbol_map_size(), symbols);
    // A free of what was tracked before the reset is a free of an unknown address
    profiler.dealloc(&mut tl, 0x1000, 64);
    assert_eq!(profiler.profiled_bytes_retained(), 200 * 64);
    assert_eq!(stack_list_allocated_bytes_desc(&profiler).len(), 0);
}

#[test]
fn reset_of_a_new_profiler_leaves_it_as_it_is() {
    let mut profiler = YingProfiler::new(5, 1000);
    reset_state_for_testing_only(&mut profiler);
    assert!(!profiler.is_initialized());
    assert_eq!(profiler.num_outstanding_allocs(), 0);
    assert_eq!(profiler.symbol_map_size(), 0);
}

#[test]
fn new_profiler_counts_nothing() {
    let profiler = YingProfiler::new(5, 1000);
    assert_eq!(profiler.total_retained_bytes(), 0);
    assert_eq!(profiler.profiled_bytes_allocated(), 0);
    assert_eq!(profiler.profiled_bytes_retained(), 0);
    assert_eq!(profiler.symbol_map_size(), 0);
    assert_eq!(profiler.num_outstanding_allocs(), 0);
    assert!(!profiler.is_initialized());
}

#[test]
fn default_profiler_samples_one_in_five_hundred_and_denies_sixty_four_gib() {
    let mut profiler = YingProfiler::default();
    let mut tl = YingThreadLocal::new();
    for n in 0..1001u64 {
        profiler.allocate(&mut tl, 0x1000 + n * 16, 16);
    }
    assert_eq!(profiler.num_outstanding_allocs(), 3);
    assert_eq!(profiler.profiled_bytes_allocated(), 48);
    assert_eq!(profiler.allocate(&mut tl, 0x9000_0000, 64 * GIB - 1).ptr, 0x9000_0000);
    assert_eq!(profiler.allocate(&mut tl, 0xa000_0000, 64 * GIB).ptr, 0);
}

#[test]
fn sampled_allocation_is_tracked_under_the_hash_of_its_stack() {
    let mut profiler = YingProfiler::new(1, 64 * GIB);
    let mut tl = YingThreadLocal::new();
    coarsetime::Clock::update();
    let now = coarsetime::Clock::recent_since_epoch().as_millis();
    assert!(now > 1_600_000_000_000);

    profiler.allocate(&mut tl, 0x1000, 100);
    assert!(profiler.is_initialized());
    let info = profiler.allocation_info(0x1000).unwrap();
    assert_eq!(info.allocation_timestamp_millis(), now);
    let stats = get_stats_for_stack_hash(&profiler, info.stack_hash()).unwrap();
    assert_eq!(stats.allocated_bytes, 100);
    assert_eq!(stats.num_allocations, 1);
    assert_eq!(stats.stack.compute_hash(), info.stack_hash());
    assert!(stats.stack.len() > 0);
}

#[test]
fn symbols_are_resolved_on_the_first_sight_of_a_stack_only() {
    let mut profiler = YingProfiler::new(1, 64 * GIB);
    let mut tl = YingThreadLocal::new();
    assert_eq!(profiler.symbol_map_size(), 0);
    for n in 0..2u64 {
        profiler.allocate(&mut tl, 0x1000 + n * 16, 16);
        if n == 0 {
            assert!(profiler.symbol_map_size() > 0);
        }
    }
    let after_first = profiler.symbol_map_size();
    for n in 2..50u64 {
        profiler.allocate(&mut tl, 0x1000 + n * 16, 16);
    }
    assert_eq!(profiler.symbol_map_size(), after_first);
    assert_eq!(stack_list_allocated_bytes_desc(&profiler).len(), 1);
    // The report of the stack names the function that runs a test
    let top = profiler.top_k_stacks_by_allocated(&mut tl, 1);
    assert!(top[0].rich_report(&profiler, true).contains("run_test"));
}

#[test]
fn allocation_under_a_locked_guard_is_counted_but_not_sampled() {
    let mut profiler = YingProfiler::new(1, 64 * GIB);
    let mut tl = YingThreadLocal::new();
    tl.set_allocator_lock();
    for n in 0..10u64 {
        assert_eq!(profiler.allocate(&mut tl, 0x1000 + n * 16, 16).ptr, 0x1000 + n * 16);
    }
    assert_eq!(profiler.total_retained_bytes(), 160);
    assert_eq!(profiler.profiled_bytes_allocated(), 0);
    assert_eq!(profiler.num_outstanding_allocs(), 0);
    assert!(!profiler.is_initialized());
    assert!(tl.is_allocator_locked());
    tl.release_allocator_lock();
    // None of the ten used up the sampler's first turn
    assert!(tl.should_sample(1000));
}

#[test]
fn forcing_the_next_sample_works_with_any_ratio() {
    let mut profiler = YingProfiler::new(1_000_000, 64 * GIB);
    let mut tl = YingThreadLocal::new();
    profiler.allocate(&mut tl, 0x1000, 10);
    profiler.allocate(&mut tl, 0x2000, 10);
    profiler.allocate(&mut tl, 0x3000, 10);
    assert_eq!(profiler.num_outstanding_allocs(), 1);
    testing_only_guarantee_next_sample(&mut tl);
    profiler.allocate(&mut tl, 0x4000, 10);
    assert_eq!(profiler.num_outstanding_allocs(), 2);
    assert!(profiler.allocation_info(0x4000).is_some());
    assert!(profiler.allocation_info(0x2000).is_none());
}

#[test]
fn free_of_an_address_that_was_not_sampled_moves_only_the_total() {
    let mut profiler = YingProfiler::new(1, 64 * GIB);
    let mut tl = YingThreadLocal::new();
    profiler.record_sampled_alloc(0x1000, 100, stack_of(&[1]), 5);
    profiler.allocate(&mut tl, 0x2000, 40);
    reset_state_for_testing_only(&mut profiler);
    profiler.record_sampled_alloc(0x1000, 100, stack_of(&[1]), 5);
    let total = profiler.total_retained_bytes();
    profiler.dealloc(&mut tl, 0x2000, 40);
    assert_eq!(profiler.total_retained_bytes(), total - 40);
    assert_eq!(profiler.num_outstanding_allocs(), 1);
    let stats = get_stats_for_stack_hash(&profiler, hash_of(&[1])).unwrap();
    assert_eq!((stats.freed_bytes, stats.num_frees), (0, 0));
}

#[test]
fn free_before_the_stores_are_built_leaves_them_unbuilt() {
    let mut profiler = YingProfiler::new(5, 64 * GIB);
    let mut tl = YingThreadLocal::new();
    tl.set_allocator_lock();
    profiler.allocate(&mut tl, 0x1000, 64);
    tl.release_allocator_lock();
    profiler.dealloc(&mut tl, 0x1000, 64);
    assert!(!profiler.is_initialized());
    assert_eq!(profiler.total_retained_bytes(), 0);
    profiler.realloc(&mut tl, 0x2000, 10, 0x3000, 20);
    assert!(!profiler.is_initialized());
    assert_eq!(profiler.total_retained_bytes(), 10);
}

#[test]
fn retained_counter_wraps_as_an_unsigned_number() {
    let mut profiler = YingProfiler::new(5, 64 * GIB);
    let mut tl = YingThreadLocal::new();
    profiler.dealloc(&mut tl, 0x1000, 1);
    assert_eq!(profiler.total_retained_bytes(), usize::MAX);
    tl.set_allocator_lock();
    profiler.allocate(&mut tl, 0x1000, 3);
    assert_eq!(profiler.total_retained_bytes(), 2);
}

#[test]
fn free_under_a_locked_guard_forgets_the_address_all_the_same() {
    let mut profiler = YingProfiler::new(1, 64 * GIB);
    let mut tl = YingThreadLocal::new();
    profiler.record_sampled_alloc(0x1000, 100, stack_of(&[1]), 5);
    tl.set_allocator_lock();
    profiler.dealloc(&mut tl, 0x1000, 100);
    assert!(tl.is_allocator_locked());
    assert_eq!(profiler.profiled_bytes_retained(), 0);
    assert_eq!(profiler.allocation_info(0x1000), None);
    assert_eq!(profiler.num_outstanding_allocs(), 0);
    let stats = get_stats_for_stack_hash(&profiler, hash_of(&[1])).unwrap();
    assert_eq!((stats.freed_bytes, stats.num_frees), (100, 1));
}

#[test]
fn reused_address_is_not_counted_for_the_stack_that_had_it_before() {
    let mut profiler = YingProfiler::new(2, 1024);
    let mut tl = YingThreadLocal::new();
    // Sampled, then freed while the guard is held
    profiler.allocate(&mut tl, 0x1000, 8);
    let hash = profiler.allocation_info(0x1000).unwrap().stack_hash();
    tl.set_allocator_lock();
    profiler.dealloc(&mut tl, 0x1000, 8);
    tl.release_allocator_lock();
    // The same address again, not sampled this time
    profiler.allocate(&mut tl, 0x1000, 100);
    assert_eq!(profiler.allocation_info(0x1000), None);
    profiler.dealloc(&mut tl, 0x1000, 100);
    let stats = get_stats_for_stack_hash(&profiler, hash).unwrap();
    assert_eq!((stats.allocated_bytes, stats.freed_bytes), (8, 8));
    assert_eq!((stats.num_allocations, stats.num_frees), (1, 1));
    assert_eq!(profiler.total_retained_bytes(), 0);
    assert_eq!(profiler.profiled_bytes_retained(), 0);
}

#[test]
fn realloc_under_a_locked_guard_moves_the_record_all_the_same() {
    let mut profiler = YingProfiler::new(1, 64 * GIB);
    let mut tl = YingThreadLocal::new();
    profiler.record_sampled_alloc(0x1000, 100, stack_of(&[1]), 5);
    tl.set_allocator_lock();
    assert_eq!(profiler.realloc(&mut tl, 0x1000, 100, 0x2000, 160).ptr, 0x2000);
    assert!(tl.is_allocator_locked());
    assert_eq!(profiler.allocation_info(0x1000), None);
    assert_eq!(profiler.allocation_info(0x2000), Some(AllocInfo(hash_of(&[1]), 5)));
    assert_eq!(profiler.profiled_bytes_retained(), 160);
    let stats = get_stats_for_stack_hash(&profiler, hash_of(&[1])).unwrap();
    assert_eq!((stats.allocated_bytes, stats.num_allocations), (160, 1));
}

#[test]
fn realloc_moves_the_record_and_keeps_its_timestamp() {
    let mut profiler = YingProfiler::new(1, 64 * GIB);
    let mut tl = YingThreadLocal::new();
    let frames = [0xaa, 0xbb];
    tl.set_allocator_lock();
    profiler.allocate(&mut tl, 0x1000, 100);
    tl.release_allocator_lock();
    profiler.record_sampled_alloc(0x1000, 100, stack_of(&frames), 1234);

    let outcome = profiler.realloc(&mut tl, 0x1000, 100, 0x2000, 250);
    assert_eq!(outcome.ptr, 0x2000);
    assert!(outcome.denial_report.is_none());
    assert_eq!(profiler.allocation_info(0x1000), None);
    assert_eq!(profiler.allocation_info(0x2000), Some(AllocInfo(hash_of(&frames), 1234)));
    assert_eq!(profiler.num_outstanding_allocs(), 1);
    assert_eq!(profiler.total_retained_bytes(), 250);
    assert_eq!(profiler.profiled_bytes_retained(), 250);
    assert_eq!(profiler.profiled_bytes_allocated(), 100);
    let grown = get_stats_for_stack_hash(&profiler, hash_of(&frames)).unwrap();
    assert_eq!(grown.allocated_bytes, 250);
    assert_eq!(grown.num_allocations, 1);
    assert_eq!(grown.freed_bytes, 0);
    assert_eq!(grown.num_frees, 0);

    // And back down, to a third address
    assert_eq!(profiler.realloc(&mut tl, 0x2000, 250, 0x3000, 40).ptr, 0x3000);
    assert_eq!(profiler.allocation_info(0x3000), Some(AllocInfo(hash_of(&frames), 1234)));
    assert_eq!(profiler.total_retained_bytes(), 40);
    assert_eq!(profiler.profiled_bytes_retained(), 40);
    let shrunk = get_stats_for_stack_hash(&profiler, hash_of(&frames)).unwrap();
    assert_eq!(shrunk.allocated_bytes, 40);
    assert_eq!(shrunk.num_allocations, 1);
    assert_eq!(shrunk.num_frees, 0);
    assert!(!tl.is_allocator_locked());
}

#[test]
fn realloc_of_an_allocation_that_was_not_sampled_moves_only_the_total() {
    let mut profiler = YingProfiler::new(1, 64 * GIB);
    let mut tl = YingThreadLocal::new();
    profiler.record_sampled_alloc(0x1000, 100, stack_of(&[1]), 5);
    tl.set_allocator_lock();
    profiler.allocate(&mut tl, 0x5000, 60);
    tl.release_allocator_lock();
    assert_eq!(profiler.realloc(&mut tl, 0x5000, 60, 0x6000, 20).ptr, 0x6000);
    assert_eq!(profiler.total_retained_bytes(), 20);
    assert_eq!(profiler.profiled_bytes_retained(), 100);
    assert_eq!(profiler.allocation_info(0x6000), None);
    assert_eq!(get_stats_for_stack_hash(&profiler, hash_of(&[1])).unwrap().allocated_bytes, 100);
}

#[test]
fn realloc_to_a_giant_size_is_denied() {
    let mut profiler = YingProfiler::new(1, 4096);
    let mut tl = YingThreadLocal::new();
    profiler.record_sampled_alloc(0x1000, 100, stack_of(&[1]), 5);
    let outcome = profiler.realloc(&mut tl, 0x1000, 100, 0x2000, 4096);
    assert_eq!(outcome.ptr, 0);
    assert!(outcome.denial_report.unwrap().starts_with(
        "WARNING: Huge memory allocation of 4096 bytes denied by Ying profiler\nStack trace:\n"
    ));
    assert_eq!(profiler.allocation_info(0x1000), Some(AllocInfo(hash_of(&[1]), 5)));
    assert_eq!(profiler.allocation_info(0x2000), None);
    assert_eq!(profiler.profiled_bytes_retained(), 100);
    assert_eq!(get_stats_for_stack_hash(&profiler, hash_of(&[1])).unwrap().allocated_bytes, 100);
}

#[test]
fn failed_realloc_changes_nothing() {
    let mut profiler = YingProfiler::new(1, 4096);
    let mut tl = YingThreadLocal::new();
    profiler.record_sampled_alloc(0x1000, 100, stack_of(&[1]), 5);
    let outcome = profiler.realloc(&mut tl, 0x1000, 100, 0, 200);
    assert_eq!(outcome.ptr, 0);
    assert!(outcome.denial_report.is_none());
    assert_eq!(profiler.allocation_info(0x1000), Some(AllocInfo(hash_of(&[1]), 5)));
    assert_eq!(profiler.total_retained_bytes(), 0);
    assert_eq!(profiler.profiled_bytes_retained(), 100);
}

fn three_stacks() -> YingProfiler {
    let mut profiler = YingProfiler::new(1, 64 * GIB);
    let mut tl = YingThreadLocal::new();
    // Stack a: 1000 allocated, 900 freed. Stack b: 500 allocated. Stack c: 300 allocated.
    profiler.record_sampled_alloc(0x1000, 900, stack_of(&[0xa]), 1);
    profiler.record_sampled_alloc(0x2000, 100, stack_of(&[0xa]), 2);
    profiler.record_sampled_alloc(0x3000, 500, stack_of(&[0xb]), 3);
    profiler.record_sampled_alloc(0x4000, 300, stack_of(&[0xc]), 4);
    profiler.dealloc(&mut tl, 0x1000, 900);
    profiler
}

#[test]
fn stacks_are_listed_from_the_largest_metric_down() {
    let profiler = three_stacks();
    assert_eq!(
        stack_list_allocated_bytes_desc(&profiler),
        vec![(hash_of(&[0xa]), 1000), (hash_of(&[0xb]), 500), (hash_of(&[0xc]), 300)]
    );
    assert_eq!(
        stack_list_retained_bytes_desc(&profiler),
        vec![(hash_of(&[0xb]), 500), (hash_of(&[0xc]), 300), (hash_of(&[0xa]), 100)]
    );
}

#[test]
fn top_k_gives_the_first_k_of_the_ranking() {
    let profiler = three_stacks();
    let mut tl = YingThreadLocal::new();
    let by_allocated: Vec<u64> = profiler
        .top_k_stacks_by_allocated(&mut tl, 2)
        .iter()
        .map(|s| s.allocated_bytes)
        .collect();
    assert_eq!(by_allocated, vec![1000, 500]);
    let by_retained: Vec<(u64, u64)> = profiler
        .top_k_stacks_by_retained(&mut tl, 2)
        .iter()
        .map(|s| (s.stack.frame(0), s.retained_profiled_bytes()))
        .collect();
    assert_eq!(by_retained, vec![(0xb, 500), (0xc, 300)]);
    assert_eq!(profiler.top_k_stacks_by_allocated(&mut tl, 0).len(), 0);
    assert_eq!(profiler.top_k_stacks_by_allocated(&mut tl, 3).len(), 3);
    assert_eq!(profiler.top_k_stacks_by_retained(&mut tl, 1000).len(), 3);
    let top = profiler.top_k_stacks_by_allocated(&mut tl, 1);
    assert_eq!(top[0].num_allocations, 2);
    assert_eq!(top[0].freed_bytes, 900);
    assert_eq!(top[0].num_frees, 1);
    assert!(!tl.is_allocator_locked());
}

#[test]
fn statistics_of_a_stack_are_found_by_its_hash() {
    let profiler = three_stacks();
    let found = get_stats_for_stack_hash(&profiler, hash_of(&[0xb])).unwrap();
    assert_eq!(found.allocated_bytes, 500);
    assert_eq!(found.stack.len(), 1);
    assert_eq!(found.stack.frame(0), 0xb);
    assert!(get_stats_for_stack_hash(&profiler, hash_of(&[0xd])).is_none());
    assert!(get_stats_for_stack_hash(&YingProfiler::new(1, 10), 17).is_none());
}

#[test]
fn report_of_a_stack_without_symbols() {
    let profiler = three_stacks();
    let stats = get_stats_for_stack_hash(&profiler, hash_of(&[0xa])).unwrap();
    assert_eq!(
        stats.rich_report(&profiler, false),
        "1000 bytes allocated (55% of profiled bytes) in 2 allocations, 900 bytes freed (90%) in 1 frees\n  <unresolved 10>\n"
    );
    let mut tagged = get_stats_for_stack_hash(&profiler, hash_of(&[0xc])).unwrap();
    tagged.context = Some(77);
    assert_eq!(
        tagged.rich_report(&profiler, true),
        "300 bytes allocated (16% of profiled bytes) in 1 allocations, 0 bytes freed (0%) in 0 frees\ncontext: 77\n  <unresolved 12>\n"
    );
}

#[test]
fn report_of_a_denial_names_the_size_and_the_stack() {
    let mut cache = SymbolMap::new();
    cache.insert_if_absent(
        1,
        vec![FriendlySymbol {
            name: Some("app::grow".to_string()),
            filename: Some("src/app.rs".to_string()),
            lineno: Some(7),
        }],
    );
    assert_eq!(
        denial_report(5000, &stack_of(&[1, 2]), &cache),
        "WARNING: Huge memory allocation of 5000 bytes denied by Ying profiler\nStack trace:\n  app::grow\n      at src/app.rs:7\n  <unresolved 2>\n"
    );
}

#[test]
fn percentages_round_down() {
    assert_eq!(percent_of(0, 0), 0);
    assert_eq!(percent_of(5, 0), 0);
    assert_eq!(percent_of(0, 5), 0);
    assert_eq!(percent_of(1, 3), 33);
    assert_eq!(percent_of(2, 3), 66);
    assert_eq!(percent_of(3, 3), 100);
    assert_eq!(percent_of(512, 1024), 50);
    assert_eq!(percent_of(u64::MAX, u64::MAX), 100);
    assert_eq!(percent_of(u64::MAX, 1), u64::MAX);
    assert_eq!(percent_of(u64::MAX, 200), u64::MAX / 2);
}

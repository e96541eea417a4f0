use std::hash::BuildHasher;

use ying_profiler::callstack::{
    populate_symbol_map, FriendlySymbol, StdCallstack, SymbolMap, MAX_NUM_FRAMES,
    TOP_FRAMES_TO_SKIP,
};
use ying_profiler::guard::{lock_out_profiler, YingThreadLocal};
use ying_profiler::paged::PagedIndex;
use ying_profiler::ranking::sort_desc;
use ying_profiler::stats::{StackStats, StatsStore};
use ying_profiler::text::decimal_string;
use ying_profiler::tracker::{AllocInfo, Tracker};

// A stack with the given frames: `from_frames` drops the frames of the profiler itself, which
// stand in front.
fn stack_of(frames: &[u64]) -> StdCallstack {
    let mut raw = vec![0u64; TOP_FRAMES_TO_SKIP];
    raw.extend_from_slice(frames);
    StdCallstack::from_frames(&raw)
}

fn frames_of(stack: &StdCallstack) -> Vec<u64> {
    (0..stack.len()).map(|i| stack.frame(i)).collect()
}

fn symbol(name: &str, file: Option<&str>, line: Option<u32>) -> FriendlySymbol {
    FriendlySymbol {
        name: Some(name.to_string()),
        filename: file.map(|f| f.to_string()),
        lineno: line,
    }
}

#[test]
fn sampling_fires_on_every_multiple_of_the_ratio() {
    let mut tl = YingThreadLocal::new();
    let sampled: Vec<bool> = (0..11).map(|_| tl.should_sample(5)).collect();
    assert_eq!(
        sampled,
        vec![true, false, false, false, false, true, false, false, false, false, true]
    );
}

#[test]
fn sampling_with_ratio_one_takes_every_event() {
    let mut tl = YingThreadLocal::new();
    for _ in 0..10 {
        assert!(tl.should_sample(1));
    }
}

#[test]
fn first_event_of_a_thread_is_sampled() {
    let mut tl = YingThreadLocal::new();
    assert!(tl.should_sample(500));
    assert!(!tl.should_sample(500));
}

#[test]
fn resetting_the_counter_makes_the_next_event_sampled() {
    let mut tl = YingThreadLocal::new();
    assert!(tl.should_sample(7));
    assert!(!tl.should_sample(7));
    tl.test_only_reset_sampling_counter();
    assert!(tl.should_sample(7));
}

#[test]
fn guard_lock_is_set_and_released() {
    let mut tl = YingThreadLocal::new();
    assert!(!tl.is_allocator_locked());
    tl.set_allocator_lock();
    assert!(tl.is_allocator_locked());
    // Sampling goes on counting while the guard is locked
    assert!(tl.should_sample(3));
    assert!(tl.is_allocator_locked());
    tl.release_allocator_lock();
    assert!(!tl.is_allocator_locked());
}

#[test]
fn lock_out_runs_the_closure_and_frees_the_guard() {
    let mut tl = YingThreadLocal::new();
    // The closure runs with the guard held
    let answer = lock_out_profiler(&mut tl, |held: &YingThreadLocal| {
        assert!(held.is_allocator_locked());
        6 * 7
    });
    assert_eq!(answer, 42);
    assert!(!tl.is_allocator_locked());
    // The sample counter did not move
    assert!(tl.should_sample(100));
}

#[test]
fn call_stack_skips_the_leading_frames() {
    let raw: Vec<u64> = vec![1, 2, 3, 4, 5, 6];
    let stack = StdCallstack::from_frames(&raw);
    assert_eq!(frames_of(&stack), vec![5, 6]);
}

#[test]
fn call_stack_of_a_short_backtrace_is_empty() {
    assert_eq!(StdCallstack::from_frames(&vec![]).len(), 0);
    assert_eq!(StdCallstack::from_frames(&vec![1, 2, 3]).len(), 0);
    assert_eq!(StdCallstack::from_frames(&vec![1, 2, 3, 4]).len(), 0);
    assert_eq!(StdCallstack::from_frames(&vec![1, 2, 3, 4, 5]).len(), 1);
}

#[test]
fn call_stack_is_bounded() {
    let raw: Vec<u64> = (0..100).collect();
    let stack = StdCallstack::from_frames(&raw);
    assert_eq!(stack.len(), MAX_NUM_FRAMES);
    assert_eq!(stack.len(), 30);
    let expected: Vec<u64> = (4..34).collect();
    assert_eq!(frames_of(&stack), expected);
}

#[test]
fn hash_of_known_stacks() {
    assert_eq!(stack_of(&[]).compute_hash(), 17);
    assert_eq!(stack_of(&[7]).compute_hash(), 18691697679594);
    assert_eq!(stack_of(&[1, 2]).compute_hash(), 16262876498564974);
    assert_eq!(stack_of(&[5, 6]).compute_hash(), 16267274545077822);
    let long: Vec<u64> = (100..130).collect();
    assert_eq!(stack_of(&long).compute_hash(), 109542083237999090);
}

#[test]
fn hash_is_the_same_for_the_same_frames() {
    let a = stack_of(&[0x7f00_1234, 0x7f00_5678, 0x7f00_9abc]);
    let b = stack_of(&[0x7f00_1234, 0x7f00_5678, 0x7f00_9abc]);
    let c = stack_of(&[0x7f00_5678, 0x7f00_1234, 0x7f00_9abc]);
    assert_eq!(a.compute_hash(), b.compute_hash());
    assert_eq!(a.compute_hash(), a.duplicate().compute_hash());
    assert_ne!(a.compute_hash(), c.compute_hash());
}

#[test]
fn hash_stays_below_the_modulus() {
    let top = stack_of(&[u64::MAX, u64::MAX, u64::MAX]);
    assert!(top.compute_hash() < (1u64 << 61) - 1);
}

#[test]
fn call_stack_of_a_captured_backtrace() {
    let bt = backtrace::Backtrace::new_unresolved();
    let stack = StdCallstack::from_backtrace_unresolved(&bt);
    let raw: Vec<u64> = bt.frames().iter().map(|f| f.ip() as u64).collect();
    let expected: Vec<u64> =
        raw.iter().skip(TOP_FRAMES_TO_SKIP).take(MAX_NUM_FRAMES).copied().collect();
    assert!(raw.len() > TOP_FRAMES_TO_SKIP);
    assert_eq!(frames_of(&stack), expected);
}

#[test]
fn populate_enters_every_frame_once() {
    let mut bt = backtrace::Backtrace::new_unresolved();
    let raw: Vec<u64> = bt.frames().iter().map(|f| f.ip() as u64).collect();
    let mut cache = SymbolMap::new();
    // An entry that is there before stays
    let outermost = raw[raw.len() - 1];
    cache.insert_if_absent(outermost, vec![symbol("kept", None, None)]);
    populate_symbol_map(&mut bt, &mut cache);
    let mut distinct = raw.clone();
    distinct.sort();
    distinct.dedup();
    assert_eq!(cache.len(), distinct.len());
    for ip in &raw {
        assert!(cache.contains(*ip));
    }
    let first = cache.get(outermost).unwrap();
    assert_eq!(first.len(), 1);
    assert_eq!(first[0].name.as_deref(), Some("kept"));
    // The frames were resolved: the function that runs a test is among the names
    let named = raw.iter().any(|ip| {
        cache.get(*ip).unwrap().iter().any(|s| {
            s.name.as_deref().map(|n| n.contains("run_test")).unwrap_or(false)
        })
    });
    assert!(named);
    // Populating again changes nothing
    let before = cache.len();
    populate_symbol_map(&mut bt, &mut cache);
    assert_eq!(cache.len(), before);
}

#[test]
fn symbol_cache_keeps_the_first_entry() {
    let mut cache = SymbolMap::new();
    assert_eq!(cache.len(), 0);
    assert!(!cache.contains(10));
    assert!(cache.get(10).is_none());
    cache.insert_if_absent(10, vec![symbol("first", None, None)]);
    cache.insert_if_absent(10, vec![symbol("second", None, None), symbol("third", None, None)]);
    cache.insert_if_absent(11, vec![]);
    assert_eq!(cache.len(), 2);
    let kept = cache.get(10).unwrap();
    assert_eq!(kept.len(), 1);
    assert_eq!(kept[0].name.as_deref(), Some("first"));
    assert_eq!(cache.get(11).unwrap().len(), 0);
}

#[test]
fn rendering_gives_one_line_for_each_inlined_symbol() {
    let mut cache = SymbolMap::new();
    cache.insert_if_absent(
        100,
        vec![
            symbol("app::insert_one", Some("src/app.rs"), Some(12)),
            symbol("app::update_loop", Some("src/app.rs"), Some(40)),
        ],
    );
    cache.insert_if_absent(
        200,
        vec![FriendlySymbol { name: None, filename: None, lineno: Some(3) }],
    );
    cache.insert_if_absent(300, vec![symbol("main", Some("src/main.rs"), None)]);
    cache.insert_if_absent(400, vec![]);
    let stack = stack_of(&[100, 200, 300, 400, 500]);
    assert_eq!(
        stack.with_symbols(&cache),
        "  app::insert_one\n  app::update_loop\n  <unknown>\n  main\n  <unresolved 400>\n  <unresolved 500>\n"
    );
    assert_eq!(
        stack.with_symbols_and_filename(&cache),
        "  app::insert_one\n      at src/app.rs:12\n  app::update_loop\n      at src/app.rs:40\n  <unknown>\n  main\n      at src/main.rs:0\n  <unresolved 400>\n  <unresolved 500>\n"
    );
}

#[test]
fn rendering_an_empty_stack_gives_nothing() {
    let cache = SymbolMap::new();
    assert_eq!(stack_of(&[]).with_symbols(&cache), "");
    assert_eq!(stack_of(&[]).with_symbols_and_filename(&cache), "");
}

#[test]
fn decimal_text_of_numbers() {
    assert_eq!(decimal_string(0), "0");
    assert_eq!(decimal_string(7), "7");
    assert_eq!(decimal_string(10), "10");
    assert_eq!(decimal_string(512), "512");
    assert_eq!(decimal_string(1234567890), "1234567890");
    assert_eq!(decimal_string(u64::MAX), "18446744073709551615");
}

#[test]
fn stack_stats_start_with_the_first_allocation() {
    let stats = StackStats::new(stack_of(&[1, 2]), Some(512));
    assert_eq!(stats.allocated_bytes, 512);
    assert_eq!(stats.num_allocations, 1);
    assert_eq!(stats.freed_bytes, 0);
    assert_eq!(stats.num_frees, 0);
    assert_eq!(stats.context, None);
    assert_eq!(frames_of(&stats.stack), vec![1, 2]);
    assert_eq!(stats.retained_profiled_bytes(), 512);

    let empty = StackStats::new(stack_of(&[1, 2]), None);
    assert_eq!(empty.allocated_bytes, 0);
    assert_eq!(empty.num_allocations, 0);
    assert_eq!(empty.retained_profiled_bytes(), 0);
}

#[test]
fn retained_bytes_are_allocated_minus_freed() {
    let mut stats = StackStats::new(stack_of(&[1]), Some(1000));
    stats.freed_bytes = 400;
    assert_eq!(stats.retained_profiled_bytes(), 600);
    stats.freed_bytes = 1000;
    assert_eq!(stats.retained_profiled_bytes(), 0);
    // Never below zero
    stats.freed_bytes = 1001;
    assert_eq!(stats.retained_profiled_bytes(), 0);
    let copy = stats.duplicate();
    assert_eq!(copy.allocated_bytes, 1000);
    assert_eq!(copy.freed_bytes, 1001);
    assert_eq!(frames_of(&copy.stack), vec![1]);
}

#[test]
fn store_inserts_then_raises_in_place() {
    let mut store = StatsStore::new();
    assert_eq!(store.len(), 0);
    assert!(!store.contains(42));
    assert!(store.get(42).is_none());

    store.upsert(42, stack_of(&[1, 2, 3]), 100);
    assert_eq!(store.len(), 1);
    assert!(store.contains(42));
    let first = store.get(42).unwrap();
    assert_eq!((first.allocated_bytes, first.num_allocations), (100, 1));
    assert_eq!(frames_of(&first.stack), vec![1, 2, 3]);

    // The same hash again: the counters rise, the stack of the first sight stays
    store.upsert(42, stack_of(&[9, 9]), 28);
    assert_eq!(store.len(), 1);
    let second = store.get(42).unwrap();
    assert_eq!((second.allocated_bytes, second.num_allocations), (128, 2));
    assert_eq!(frames_of(&second.stack), vec![1, 2, 3]);

    store.upsert(7, stack_of(&[4]), 5);
    assert_eq!(store.len(), 2);
    assert_eq!(store.hash_at(0), 42);
    assert_eq!(store.hash_at(1), 7);
    assert_eq!(store.stats_at(1).allocated_bytes, 5);
    assert_eq!(store.get(42).unwrap().allocated_bytes, 128);
}

#[test]
fn store_counts_frees_and_passes_over_unknown_hashes() {
    let mut store = StatsStore::new();
    store.upsert(1, stack_of(&[1]), 300);
    store.update_on_free(1, 120);
    store.update_on_free(1, 30);
    // A hash that was never inserted: nothing happens, and nothing panics
    store.update_on_free(2, 999);
    store.update_on_resize(2, 10, 20);
    assert_eq!(store.len(), 1);
    assert!(!store.contains(2));
    let stats = store.get(1).unwrap();
    assert_eq!(stats.allocated_bytes, 300);
    assert_eq!(stats.num_allocations, 1);
    assert_eq!(stats.freed_bytes, 150);
    assert_eq!(stats.num_frees, 2);
    assert_eq!(stats.retained_profiled_bytes(), 150);
}

#[test]
fn store_follows_a_change_of_size() {
    let mut store = StatsStore::new();
    store.upsert(1, stack_of(&[1]), 300);
    store.update_on_resize(1, 300, 1000);
    let grown = store.get(1).unwrap();
    assert_eq!(grown.allocated_bytes, 1000);
    assert_eq!(grown.num_allocations, 1);
    assert_eq!(grown.num_frees, 0);
    store.update_on_resize(1, 1000, 64);
    let shrunk = store.get(1).unwrap();
    assert_eq!(shrunk.allocated_bytes, 64);
    assert_eq!(shrunk.num_allocations, 1);
    assert_eq!(shrunk.freed_bytes, 0);
    store.update_on_resize(1, 64, 64);
    assert_eq!(store.get(1).unwrap().allocated_bytes, 64);
}

#[test]
fn store_counters_wrap_around() {
    let mut store = StatsStore::new();
    store.upsert(1, stack_of(&[1]), u64::MAX);
    store.upsert(1, stack_of(&[1]), 2);
    assert_eq!(store.get(1).unwrap().allocated_bytes, 1);
    store.update_on_resize(1, 10, 0);
    assert_eq!(store.get(1).unwrap().allocated_bytes, u64::MAX - 8);
}

#[test]
fn store_clears() {
    let mut store = StatsStore::new();
    for hash in 1..=100u64 {
        store.upsert(hash, stack_of(&[hash]), hash);
    }
    assert_eq!(store.len(), 100);
    assert_eq!(store.get(77).unwrap().allocated_bytes, 77);
    store.clear();
    assert_eq!(store.len(), 0);
    assert!(!store.contains(77));
    store.upsert(77, stack_of(&[77]), 1);
    assert_eq!(store.get(77).unwrap().allocated_bytes, 1);
}

#[test]
fn alloc_info_keeps_hash_and_time() {
    let info = AllocInfo::new(99, 1_700_000_000_000);
    assert_eq!(info.stack_hash(), 99);
    assert_eq!(info.allocation_timestamp_millis(), 1_700_000_000_000);
    assert_eq!(info, AllocInfo(99, 1_700_000_000_000));
}

#[test]
fn tracker_inserts_finds_and_removes() {
    let mut tracker = Tracker::new();
    assert_eq!(tracker.len(), 0);
    assert!(!tracker.contains(0x1000));
    assert_eq!(tracker.get(0x1000), None);
    assert_eq!(tracker.remove(0x1000), None);

    tracker.insert(0x1000, AllocInfo::new(5, 50));
    tracker.insert(0x2000, AllocInfo::new(6, 60));
    assert_eq!(tracker.len(), 2);
    assert!(tracker.contains(0x1000));
    assert_eq!(tracker.get(0x1000), Some(AllocInfo(5, 50)));
    assert_eq!(tracker.get(0x2000), Some(AllocInfo(6, 60)));

    // A later record for the same address takes the place of the earlier one
    tracker.insert(0x1000, AllocInfo::new(7, 70));
    assert_eq!(tracker.len(), 2);
    assert_eq!(tracker.get(0x1000), Some(AllocInfo(7, 70)));

    assert_eq!(tracker.remove(0x1000), Some(AllocInfo(7, 70)));
    assert!(!tracker.contains(0x1000));
    assert_eq!(tracker.len(), 1);
    assert_eq!(tracker.remove(0x1000), None);
    assert_eq!(tracker.get(0x2000), Some(AllocInfo(6, 60)));
}

#[test]
fn tracker_stores_zero_and_the_largest_numbers() {
    let mut tracker = Tracker::new();
    tracker.insert(0, AllocInfo::new(0, 0));
    tracker.insert(u64::MAX, AllocInfo::new(u64::MAX - 2, u64::MAX - 2));
    assert_eq!(tracker.get(0), Some(AllocInfo(0, 0)));
    assert_eq!(tracker.get(u64::MAX), Some(AllocInfo(u64::MAX - 2, u64::MAX - 2)));
    assert_eq!(tracker.len(), 2);
}

#[test]
fn tracker_rekeys_with_the_record_unchanged() {
    let mut tracker = Tracker::new();
    tracker.insert(0x1000, AllocInfo::new(5, 50));
    assert_eq!(tracker.rekey(0x1000, 0x3000), Some(AllocInfo(5, 50)));
    assert!(!tracker.contains(0x1000));
    assert_eq!(tracker.get(0x3000), Some(AllocInfo(5, 50)));
    assert_eq!(tracker.len(), 1);
    // Nothing to move: nothing changes
    assert_eq!(tracker.rekey(0x1000, 0x4000), None);
    assert!(!tracker.contains(0x4000));
    assert_eq!(tracker.len(), 1);
    // Onto itself
    assert_eq!(tracker.rekey(0x3000, 0x3000), Some(AllocInfo(5, 50)));
    assert_eq!(tracker.get(0x3000), Some(AllocInfo(5, 50)));
}

#[test]
fn tracker_holds_many_addresses() {
    let mut tracker = Tracker::new();
    for n in 0..3000u64 {
        tracker.insert(0x10_0000 + n * 16, AllocInfo::new(n % 7, n));
    }
    assert_eq!(tracker.len(), 3000);
    for n in (0..3000u64).step_by(2) {
        assert_eq!(tracker.remove(0x10_0000 + n * 16), Some(AllocInfo(n % 7, n)));
    }
    assert_eq!(tracker.len(), 1500);
    for n in 0..3000u64 {
        assert_eq!(tracker.contains(0x10_0000 + n * 16), n % 2 == 1);
    }
    tracker.clear();
    assert_eq!(tracker.len(), 0);
    assert!(!tracker.contains(0x10_0000 + 16));
}

#[test]
fn ranking_puts_the_largest_first() {
    let items: Vec<(u64, u64)> = vec![(1, 30), (2, 10), (3, 50), (4, 20), (5, 40)];
    assert_eq!(sort_desc(&items), vec![(3, 50), (5, 40), (1, 30), (4, 20), (2, 10)]);
    assert_eq!(sort_desc(&vec![]), vec![]);
    assert_eq!(sort_desc(&vec![(9, 9)]), vec![(9, 9)]);
}

#[test]
fn ranking_keeps_every_item_and_the_order_of_equals() {
    let items: Vec<(u64, u64)> = vec![(1, 5), (2, 7), (3, 5), (4, 7), (5, 5), (6, 0)];
    assert_eq!(sort_desc(&items), vec![(2, 7), (4, 7), (1, 5), (3, 5), (5, 5), (6, 0)]);
}

#[test]
fn tracker_outlives_many_addresses_that_come_and_go() {
    // Every address is tracked and freed again before the next one comes
    let mut tracker = Tracker::new();
    for n in 0..5000u64 {
        let addr = 0x7f00_0000_0000 + n * 48;
        tracker.insert(addr, AllocInfo::new(n, n + 1));
        assert_eq!(tracker.len(), 1);
        assert_eq!(tracker.remove(addr), Some(AllocInfo(n, n + 1)));
        assert!(!tracker.contains(addr));
    }
    assert_eq!(tracker.len(), 0);
    // Addresses that were tracked before can be tracked again
    for n in 0..5000u64 {
        tracker.insert(0x7f00_0000_0000 + n * 48, AllocInfo::new(7, n));
    }
    assert_eq!(tracker.len(), 5000);
    assert_eq!(tracker.get(0x7f00_0000_0000 + 4999 * 48), Some(AllocInfo(7, 4999)));
}

#[test]
fn paged_index_stores_finds_and_removes() {
    let mut index = PagedIndex::new();
    assert_eq!(index.len(), 0);
    assert_eq!(index.get(5), None);
    assert_eq!(index.remove(5), None);
    index.insert(5, 50);
    index.insert(6, 60);
    index.insert(5, 51);
    assert_eq!(index.len(), 2);
    assert_eq!(index.get(5), Some(51));
    assert_eq!(index.get(6), Some(60));
    assert!(index.contains(6));
    assert_eq!(index.remove(5), Some(51));
    assert_eq!(index.remove(5), None);
    assert_eq!(index.get(5), None);
    assert!(!index.contains(5));
    assert_eq!(index.len(), 1);
    // A key that left comes back with a new value
    index.insert(5, 0);
    assert_eq!(index.get(5), Some(0));
    assert_eq!(index.len(), 2);
    index.clear();
    assert_eq!(index.len(), 0);
    assert_eq!(index.get(6), None);
}

#[test]
fn paged_index_holds_more_keys_than_one_page() {
    let mut index = PagedIndex::new();
    for key in 0..1000u64 {
        index.insert(key.wrapping_mul(0x9e37_79b9_7f4a_7c15), key);
    }
    assert_eq!(index.len(), 1000);
    for key in 0..1000u64 {
        assert_eq!(index.get(key.wrapping_mul(0x9e37_79b9_7f4a_7c15)), Some(key));
    }
    for key in (0..1000u64).step_by(3) {
        assert_eq!(index.remove(key.wrapping_mul(0x9e37_79b9_7f4a_7c15)), Some(key));
    }
    assert_eq!(index.len(), 666);
    for key in 0..1000u64 {
        let expected = if key % 3 == 0 { None } else { Some(key) };
        assert_eq!(index.get(key.wrapping_mul(0x9e37_79b9_7f4a_7c15)), expected);
    }
    // The largest value that can be stored, under the largest key
    index.insert(u64::MAX, u64::MAX - 2);
    assert_eq!(index.get(u64::MAX), Some(u64::MAX - 2));
}

// Whether the maps behind the index can take a key with this hash.
fn hash_is_in_reach(key: u64) -> bool {
    let builder = std::hash::BuildHasherDefault::<std::collections::hash_map::DefaultHasher>::default();
    ying_profiler::leap::in_reach(builder.hash_one(&key) as usize)
}

#[test]
fn paged_index_keeps_keys_that_its_maps_cannot_take() {
    // Two keys whose hash is out of the maps' reach, and one within it
    let odd: Vec<u64> = (1u64..).filter(|key| !hash_is_in_reach(*key)).take(2).collect();
    let plain = (1u64..).find(|key| hash_is_in_reach(*key)).unwrap();
    let mut index = PagedIndex::new();
    index.insert(plain, 1);
    index.insert(odd[0], 10);
    index.insert(odd[1], 20);
    index.insert(odd[0], 11);
    assert_eq!(index.len(), 3);
    assert_eq!(index.get(odd[0]), Some(11));
    assert_eq!(index.get(odd[1]), Some(20));
    assert_eq!(index.get(plain), Some(1));
    assert_eq!(index.remove(odd[0]), Some(11));
    assert_eq!(index.get(odd[0]), None);
    assert_eq!(index.get(odd[1]), Some(20));
    assert_eq!(index.len(), 2);
    // A tracked address of this kind is tracked like any other
    let mut tracker = Tracker::new();
    tracker.insert(odd[1], AllocInfo::new(3, 4));
    assert_eq!(tracker.get(odd[1]), Some(AllocInfo(3, 4)));
    assert_eq!(tracker.rekey(odd[1], plain), Some(AllocInfo(3, 4)));
    assert_eq!(tracker.get(plain), Some(AllocInfo(3, 4)));
    assert!(!tracker.contains(odd[1]));
}

#[test]
fn hashes_in_reach() {
    assert!(!ying_profiler::leap::in_reach(0));
    assert!(ying_profiler::leap::in_reach(1));
    assert!(ying_profiler::leap::in_reach(0x7fff_efff));
    assert!(!ying_profiler::leap::in_reach(0x7fff_f000));
    assert!(!ying_profiler::leap::in_reach(0x8000_0000));
    assert!(ying_profiler::leap::in_reach(0x8000_0001));
}

#[test]
fn paged_index_gives_up_pages_that_hold_nothing() {
    // Thousands of keys pass through, a few stay all the time
    let mut index = PagedIndex::new();
    for key in 1..=10u64 {
        index.insert(key, key * 2);
    }
    for round in 0..40u64 {
        for n in 0..200u64 {
            index.insert(1_000_000 + round * 200 + n, n);
        }
        assert_eq!(index.len(), 210);
        for n in 0..200u64 {
            assert_eq!(index.remove(1_000_000 + round * 200 + n), Some(n));
        }
        assert_eq!(index.len(), 10);
    }
    for key in 1..=10u64 {
        assert_eq!(index.get(key), Some(key * 2));
    }
    assert_eq!(index.get(1_000_000), None);
    // A key that left takes a value again
    index.insert(1_000_000, 9);
    assert_eq!(index.get(1_000_000), Some(9));
}

use std::sync::atomic::{AtomicUsize, Ordering};

use aster_runtime::arena::{
    align_up, ArenaAllocError, ArenaRewindMetrics, BackendPageBacking, PageBackend, PageBacking,
    PagedArena, SystemAllocatorPageBackend, WindowsVirtualPageBackend, DEFAULT_PAGE_SIZE,
    MAX_ALIGN, MIN_PAGE_SIZE,
};
use aster_runtime::memory_governor::MemoryGovernor;

struct PageCounts {
    fail_allocations: bool,
    allocation_calls: AtomicUsize,
    release_calls: AtomicUsize,
}

/// Counts what an arena asks of its backend.
#[derive(Clone, Copy)]
struct CountingPageBackend(&'static PageCounts);

impl CountingPageBackend {
    fn allocations(self) -> usize {
        self.0.allocation_calls.load(Ordering::Relaxed)
    }

    fn releases(self) -> usize {
        self.0.release_calls.load(Ordering::Relaxed)
    }
}

impl PageBackend for CountingPageBackend {
    fn allocate_zeroed(
        &self,
        capacity: usize,
        alignment: usize,
    ) -> Result<PageBacking, ArenaAllocError> {
        self.0.allocation_calls.fetch_add(1, Ordering::Relaxed);
        if self.0.fail_allocations {
            return Err(ArenaAllocError::OutOfMemory);
        }
        SystemAllocatorPageBackend.allocate_zeroed(capacity, alignment)
    }

    fn release(&self, backing: PageBacking) {
        self.0.release_calls.fetch_add(1, Ordering::Relaxed);
        SystemAllocatorPageBackend.release(backing);
    }
}

fn test_backend(fail_allocations: bool) -> CountingPageBackend {
    CountingPageBackend(Box::leak(Box::new(PageCounts {
        fail_allocations,
        allocation_calls: AtomicUsize::new(0),
        release_calls: AtomicUsize::new(0),
    })))
}

fn put<B: PageBackend>(arena: &mut PagedArena<B>, address: u64, value: u64) {
    assert!(arena.write(address, &value.to_le_bytes()));
}

fn get<B: PageBackend>(arena: &PagedArena<B>, address: u64) -> u64 {
    let bytes = arena.read(address, 8).unwrap();
    u64::from_le_bytes(bytes.try_into().unwrap())
}

#[test]
fn fallible_allocation_rejects_the_budget_before_reserving_a_page() {
    let mut arena = PagedArena::new(1);
    assert_eq!(
        arena.try_alloc(DEFAULT_PAGE_SIZE + 1, 8, DEFAULT_PAGE_SIZE),
        Err(ArenaAllocError::Limit)
    );
    assert_eq!(arena.page_count(), 0);
    assert_eq!(arena.metrics().reserved_bytes, 0);
}

#[test]
fn failed_host_page_allocation_releases_its_governor_grant() {
    let governor = MemoryGovernor::new(MIN_PAGE_SIZE);
    let backend = test_backend(true);
    let mut arena =
        PagedArena::with_backend_and_memory_governor(backend, governor, 90);
    let result = arena.try_alloc(8, 8, usize::MAX);
    assert!(matches!(result, Err(ArenaAllocError::OutOfMemory)));
    assert_eq!(backend.allocations(), 1);
    assert_eq!(backend.releases(), 0);
    assert_eq!(arena.page_count(), 0);
    assert_eq!(arena.active_page_count(), 0);
    assert_eq!(arena.metrics().used_bytes, 0);
    assert_eq!(arena.metrics().reserved_bytes, 0);

    let telemetry = arena.governor_telemetry().unwrap();
    assert_eq!(telemetry.current_capacity_bytes, 0);
    assert_eq!(telemetry.grant_events, 1);
    assert_eq!(telemetry.release_events, 1);
    assert_eq!(
        telemetry.granted_bytes_cumulative - telemetry.released_bytes_cumulative,
        telemetry.current_capacity_bytes
    );
}

#[test]
fn first_allocation_returns_aligned_non_null_pointer() {
    let mut arena = PagedArena::new(2);
    let ptr = arena.allocate(32, 8).unwrap();
    assert!(ptr != 0);
    assert_eq!(ptr % 8, 0);
    assert_eq!(arena.page_count(), 1);
}

#[test]
fn system_backend_returns_zeroed_aligned_stable_backing_and_releases_it() {
    let backend = test_backend(false);
    let backing = BackendPageBacking::allocate(backend, 64, MIN_PAGE_SIZE, MAX_ALIGN)
        .expect("system-backed page allocation succeeds");
    assert!(backing.base() != 0);
    assert_eq!(backing.capacity(), MIN_PAGE_SIZE);
    assert_eq!(backing.base() % MAX_ALIGN as u64, 0);
    let base = backing.base();
    let bytes = backing.bytes();
    assert!(bytes.iter().all(|&byte| byte == 0));
    assert_eq!(backing.base(), base);
    backing.release();
    assert_eq!(backend.allocations(), 1);
    assert_eq!(backend.releases(), 1);
}

#[test]
fn backend_is_used_only_for_fresh_pages_and_releases_each_backing_once() {
    let backend = test_backend(false);
    let mut arena = PagedArena::with_backend(backend, 91);
    let first = arena.allocate(8, 8).unwrap();
    arena.allocate(DEFAULT_PAGE_SIZE, 8).unwrap();
    arena.allocate(DEFAULT_PAGE_SIZE * 2, 8).unwrap();
    arena.allocate(8, 8).unwrap();
    let allocations = backend.allocations();
    assert_eq!(allocations, 4);

    let second = arena
        .try_alloc_existing(8, 8)
        .expect("active allocation is addressable")
        .expect("current page has capacity");
    assert_ne!(first, second);
    assert_eq!(
        backend.allocations(),
        allocations
    );
    arena.release();
    assert_eq!(backend.releases(), allocations);
}

#[test]
fn inactive_page_reuse_does_not_allocate_backing_or_reacquire_governor_capacity() {
    let backend = test_backend(false);
    let governor = MemoryGovernor::new(MIN_PAGE_SIZE);
    let mut arena =
        PagedArena::with_backend_and_memory_governor(backend, governor, 90);
    let mark = arena.mark();
    let first = arena.allocate(64, 8).unwrap();
    assert!(arena.write(first, &[0xAB; 64]));
    arena.rewind(mark);
    let allocations_before = backend.allocations();
    let grants_before = arena.governor_telemetry().unwrap().grant_events;
    let reused = arena.allocate(64, 8).unwrap();
    assert_eq!(reused, first);
    assert_eq!(
        backend.allocations(),
        allocations_before
    );
    assert_eq!(arena.governor_telemetry().unwrap().grant_events, grants_before);
    let bytes = arena.read(reused, 64).unwrap();
    assert!(bytes.iter().all(|&byte| byte == 0));
}

#[test]
fn existing_page_fast_path_never_reserves_or_reuses_a_page() {
    let mut arena = PagedArena::new(3);
    assert_eq!(arena.try_alloc_existing(8, 8), Ok(None));
    let first = arena.allocate(8, 8).unwrap();
    let reserved = arena.metrics().reserved_bytes;
    let second = arena
        .try_alloc_existing(8, 8)
        .expect("existing allocation is addressable")
        .expect("active page has capacity");
    assert_ne!(first, second);
    assert_eq!(arena.metrics().reserved_bytes, reserved);
    assert_eq!(
        arena.try_alloc_existing(MIN_PAGE_SIZE, 8),
        Ok(None),
        "a full active page must fall back to the budgeted slow path"
    );
    assert_eq!(arena.metrics().reserved_bytes, reserved);
}

#[test]
fn multiple_small_allocations_share_growing_pages() {
    let mut arena = PagedArena::new(4);
    let ptrs: Vec<u64> = (0..100).map(|_| arena.allocate(64, 8).unwrap()).collect();
    assert_eq!(arena.page_count(), 2);
    assert_eq!(arena.metrics().reserved_bytes, MIN_PAGE_SIZE * 3);
    for (i, &p) in ptrs.iter().enumerate() {
        for &q in &ptrs[i + 1..] {
            assert_ne!(p, q);
        }
    }
}

#[test]
fn alignment_1() {
    let mut arena = PagedArena::new(5);
    for _ in 0..8 {
        let ptr = arena.allocate(1, 1).unwrap();
        assert!(ptr != 0);
    }
}

#[test]
fn alignment_2() {
    let mut arena = PagedArena::new(6);
    arena.allocate(1, 1).unwrap();
    let ptr = arena.allocate(2, 2).unwrap();
    assert_eq!(ptr % 2, 0);
}

#[test]
fn alignment_4() {
    let mut arena = PagedArena::new(7);
    arena.allocate(1, 1).unwrap();
    let ptr = arena.allocate(4, 4).unwrap();
    assert_eq!(ptr % 4, 0);
}

#[test]
fn alignment_8() {
    let mut arena = PagedArena::new(8);
    arena.allocate(3, 1).unwrap();
    let ptr = arena.allocate(8, 8).unwrap();
    assert_eq!(ptr % 8, 0);
}

#[test]
fn alignment_16() {
    let mut arena = PagedArena::new(9);
    arena.allocate(5, 1).unwrap();
    let ptr = arena.allocate(16, 16).unwrap();
    assert_eq!(ptr % 16, 0);
}

#[test]
fn padding_reflected_in_used_bytes() {
    let mut arena = PagedArena::new(10);
    arena.allocate(3, 1).unwrap();
    arena.allocate(4, 8).unwrap();
    let m = arena.metrics();
    assert_eq!(m.used_bytes, 12);
}

#[test]
fn new_page_created_on_exhaustion() {
    let mut arena = PagedArena::new(11);
    for _ in 0..1024 {
        arena.allocate(64, 8).unwrap();
    }
    arena.allocate(8, 8).unwrap();
    assert!(arena.page_count() >= 2);
}

#[test]
fn reserved_increases_with_each_page() {
    let mut arena = PagedArena::new(12);
    arena.allocate(8, 8).unwrap();
    let r1 = arena.metrics().reserved_bytes;
    assert_eq!(r1, MIN_PAGE_SIZE);
    arena.allocate(DEFAULT_PAGE_SIZE, 8).unwrap();
    let r2 = arena.metrics().reserved_bytes;
    assert!(r2 > r1);
}

#[test]
fn old_pointer_remains_valid_after_new_page() {
    let mut arena = PagedArena::new(13);
    let first = arena.allocate(8, 8).unwrap();
    put(&mut arena, first, 0xDEAD_BEEF);
    for _ in 0..4 {
        arena.allocate(DEFAULT_PAGE_SIZE, 8).unwrap();
    }
    let value = get(&arena, first);
    assert_eq!(value, 0xDEAD_BEEF);
}

#[test]
fn allocated_memory_is_zeroed() {
    let mut arena = PagedArena::new(14);
    let ptr = arena.allocate(256, 8).unwrap();
    let bytes = arena.read(ptr, 256).unwrap();
    assert!(bytes.iter().all(|&b| b == 0));
}

#[test]
fn write_and_read_after_multiple_allocations() {
    let mut arena = PagedArena::new(15);
    let a = arena.allocate(8, 8).unwrap();
    let b = arena.allocate(8, 8).unwrap();
    let c = arena.allocate(8, 8).unwrap();
    put(&mut arena, a, 1);
    put(&mut arena, b, 2);
    put(&mut arena, c, 3);
    assert_eq!(get(&arena, a), 1);
    assert_eq!(get(&arena, b), 2);
    assert_eq!(get(&arena, c), 3);
}

#[test]
fn oversized_allocation_gets_dedicated_page() {
    let mut arena = PagedArena::new(16);
    arena.allocate(8, 8).unwrap();
    let big_size = DEFAULT_PAGE_SIZE * 2;
    let ptr = arena.allocate(big_size, 8).unwrap();
    assert!(ptr != 0);
    assert_eq!(ptr % 8, 0);
    let m = arena.metrics();
    assert!(m.reserved_bytes >= MIN_PAGE_SIZE + big_size);
    let last_byte = arena.read(ptr + (big_size as u64 - 1), 1).unwrap()[0];
    assert_eq!(last_byte, 0);
}

#[test]
fn allocation_near_page_limit() {
    let mut arena = PagedArena::new(17);
    // Page capacity = DEFAULT_PAGE_SIZE exactly (64 KiB); no slack.
    let ptr = arena.allocate(DEFAULT_PAGE_SIZE, 8).unwrap();
    assert!(ptr != 0);
    assert_eq!(arena.metrics().used_bytes, DEFAULT_PAGE_SIZE);
    assert_eq!(arena.page_count(), 1);
    arena.allocate(MAX_ALIGN, 8).unwrap();
    assert_eq!(arena.page_count(), 2);
}

#[test]
fn align_up_overflow_returns_none() {
    assert!(align_up(usize::MAX, 16).is_none());
    assert!(align_up(usize::MAX - 1, 16).is_none());
}

#[test]
fn drop_releases_pages_cleanly() {
    let mut arena = PagedArena::new(18);
    for _ in 0..10 {
        arena.allocate(DEFAULT_PAGE_SIZE, 8).unwrap();
    }
    assert_eq!(arena.page_count(), 10);
    arena.release();
}

#[test]
fn empty_arena_has_zero_metrics() {
    let arena = PagedArena::new(19);
    let m = arena.metrics();
    assert_eq!(m.used_bytes, 0);
    assert_eq!(m.reserved_bytes, 0);
    assert_eq!(arena.page_count(), 0);
}

#[test]
fn telemetry_classifies_fast_and_fresh_slow_paths() {
    let mut arena = PagedArena::new(20);
    arena.allocate(32, 8).unwrap();
    arena.allocate(32, 8).unwrap();

    let telemetry = arena.telemetry_snapshot().expect("telemetry enabled");
    assert_eq!(telemetry.used_bytes, 64);
    assert_eq!(telemetry.capacity_bytes, MIN_PAGE_SIZE);
    assert_eq!(telemetry.active_page_capacity_bytes, MIN_PAGE_SIZE);
    assert_eq!(telemetry.inactive_page_capacity_bytes, 0);
    assert_eq!(telemetry.page_count, 1);
    assert_eq!(telemetry.active_page_count, 1);
    assert_eq!(telemetry.inactive_page_count, 0);
    assert_eq!(telemetry.peak_used_bytes, 64);
    assert_eq!(telemetry.peak_capacity_bytes, MIN_PAGE_SIZE);
    assert_eq!(telemetry.events.slow_path_allocations, 1);
    assert_eq!(telemetry.events.active_page_fast_path_allocations, 1);
    assert_eq!(telemetry.events.fresh_regular_page_allocations, 1);
    assert_eq!(telemetry.events.fresh_oversized_page_allocations, 0);
}

#[test]
fn telemetry_records_rewind_and_inactive_page_reuse_without_new_capacity() {
    let mut arena = PagedArena::new(21);
    let mark = arena.mark();
    arena.allocate(DEFAULT_PAGE_SIZE, 8).unwrap();
    arena.allocate(DEFAULT_PAGE_SIZE, 8).unwrap();
    let capacity = arena.metrics().reserved_bytes;

    arena.rewind(mark);
    let rewound = arena.telemetry_snapshot().expect("telemetry enabled");
    assert_eq!(rewound.used_bytes, 0);
    assert_eq!(rewound.capacity_bytes, capacity);
    assert_eq!(rewound.active_page_capacity_bytes, 0);
    assert_eq!(rewound.inactive_page_capacity_bytes, capacity);
    assert_eq!(rewound.events.rewind_events, 1);
    assert_eq!(rewound.events.rewound_bytes, (2 * DEFAULT_PAGE_SIZE) as u64);
    assert_eq!(
        rewound.last_rewind,
        Some(ArenaRewindMetrics {
            used_bytes_before: 2 * DEFAULT_PAGE_SIZE,
            used_bytes_after: 0,
            capacity_bytes_before: capacity,
            capacity_bytes_after: capacity,
            active_page_capacity_bytes_after: 0,
            inactive_page_capacity_bytes_after: capacity,
        })
    );

    arena.allocate(8, 8).unwrap();
    let reused = arena.telemetry_snapshot().expect("telemetry enabled");
    assert_eq!(reused.capacity_bytes, capacity);
    assert_eq!(reused.events.inactive_page_reuse_events, 1);
    assert_eq!(reused.events.fresh_regular_page_allocations, 2);
}

#[test]
fn telemetry_distinguishes_oversized_pages_and_limit_denials() {
    let mut oversized = PagedArena::new(22);
    oversized.allocate(DEFAULT_PAGE_SIZE + 1, 8).unwrap();
    let metrics = oversized.telemetry_snapshot().expect("telemetry enabled");
    assert_eq!(metrics.events.fresh_oversized_page_allocations, 1);
    assert_eq!(metrics.events.fresh_regular_page_allocations, 0);

    let mut denied = PagedArena::new(23);
    assert_eq!(
        denied.try_alloc(DEFAULT_PAGE_SIZE + 1, 8, DEFAULT_PAGE_SIZE),
        Err(ArenaAllocError::Limit)
    );
    let metrics = denied.telemetry_snapshot().expect("telemetry enabled");
    assert_eq!(metrics.used_bytes, 0);
    assert_eq!(metrics.capacity_bytes, 0);
    assert_eq!(metrics.peak_used_bytes, 0);
    assert_eq!(metrics.peak_capacity_bytes, 0);
    assert_eq!(metrics.events.slow_path_allocations, 1);
    assert_eq!(metrics.events.allocation_limit_denials, 1);
}

#[test]
fn page_base_addresses_stable_across_growth() {
    let backend = test_backend(false);
    let mut arena = PagedArena::with_backend(backend, 91);
    let mut bases = Vec::new();
    for _ in 0..8 {
        let ptr = arena.allocate(DEFAULT_PAGE_SIZE, 8).unwrap();
        bases.push(ptr);
    }
    // Allocate more to trigger Vec<Page> reallocation.
    for _ in 0..8 {
        arena.allocate(DEFAULT_PAGE_SIZE, 8).unwrap();
    }
    for &base in &bases {
        assert!(arena.read(base, 1).is_some());
    }
    let allocations = backend.allocations();
    arena.release();
    assert_eq!(backend.releases(), allocations);
}

#[test]
fn two_arenas_are_fully_independent() {
    let mut a = PagedArena::new(24);
    let mut b = PagedArena::new(25);
    let pa = a.allocate(64, 8).unwrap();
    let pb = b.allocate(64, 8).unwrap();
    put(&mut a, pa, 0xAAAA);
    put(&mut b, pb, 0xBBBB);
    assert_eq!(get(&a, pa), 0xAAAA);
    assert_eq!(get(&b, pb), 0xBBBB);
    let ma = a.metrics();
    let mb = b.metrics();
    assert_eq!(ma.used_bytes, 64);
    assert_eq!(mb.used_bytes, 64);
}

#[test]
fn empty_mark_rewinds_without_allocating_pages() {
    let mut arena = PagedArena::new(26);
    let mark = arena.mark();
    arena.rewind(mark);

    let metrics = arena.metrics();
    assert_eq!(metrics.used_bytes, 0);
    assert_eq!(metrics.reserved_bytes, 0);
    assert_eq!(arena.page_count(), 0);
    assert_eq!(arena.active_page_count(), 0);
}

#[test]
fn rewind_restores_usage_within_the_same_page() {
    let mut arena = PagedArena::new(27);
    arena.allocate(8, 8).unwrap();
    let mark = arena.mark();
    let before = arena.metrics();

    arena.allocate(32, 8).unwrap();
    assert!(arena.metrics().used_bytes > before.used_bytes);
    arena.rewind(mark);

    let after = arena.metrics();
    assert_eq!(after.used_bytes, before.used_bytes);
    assert_eq!(after.reserved_bytes, before.reserved_bytes);
    assert_eq!(arena.active_page_count(), 1);
}

#[test]
fn rewind_preserves_content_allocated_before_the_mark() {
    let mut arena = PagedArena::new(28);
    let persistent = arena.allocate(8, 8).unwrap();
    put(&mut arena, persistent, 0xCAFE_BABE);

    let mark = arena.mark();
    arena.allocate(256, 8).unwrap();
    arena.rewind(mark);

    let value = get(&arena, persistent);
    assert_eq!(value, 0xCAFE_BABE);
}

#[test]
fn reused_region_is_zeroed_after_rewind() {
    let mut arena = PagedArena::new(29);
    let mark = arena.mark();
    let old_address = {
        let ptr = arena.allocate(64, 8).unwrap();
        assert!(arena.write(ptr, &[0xAB; 64]));
        ptr
    };

    arena.rewind(mark);

    let reused = arena.allocate(64, 8).unwrap();
    assert_eq!(reused, old_address);
    let bytes = arena.read(reused, 64).unwrap();
    assert!(bytes.iter().all(|&byte| byte == 0));
}

#[test]
fn rewind_restores_alignment_padding() {
    let mut arena = PagedArena::new(30);
    arena.allocate(3, 1).unwrap();
    let mark = arena.mark();
    let before = arena.metrics().used_bytes;

    arena.allocate(4, 8).unwrap();
    assert_eq!(arena.metrics().used_bytes, 12);
    arena.rewind(mark);

    assert_eq!(arena.metrics().used_bytes, before);
    assert_eq!(before, 3);
}

#[test]
fn rewind_crossing_pages_keeps_them_reserved_and_inactive() {
    let mut arena = PagedArena::new(31);
    arena.allocate(8, 8).unwrap();
    let mark = arena.mark();
    let used_before = arena.metrics().used_bytes;

    arena.allocate(DEFAULT_PAGE_SIZE, 8).unwrap();
    arena.allocate(DEFAULT_PAGE_SIZE, 8).unwrap();
    let reserved_before = arena.metrics().reserved_bytes;
    assert_eq!(arena.active_page_count(), 3);

    arena.rewind(mark);

    assert_eq!(arena.metrics().used_bytes, used_before);
    assert_eq!(arena.metrics().reserved_bytes, reserved_before);
    assert_eq!(arena.page_count(), 3);
    assert_eq!(arena.active_page_count(), 1);
}

#[test]
fn inactive_pages_are_reused_before_allocating_new_pages() {
    let mut arena = PagedArena::new(32);
    let mark = arena.mark();

    arena.allocate(DEFAULT_PAGE_SIZE, 8).unwrap();
    arena.allocate(DEFAULT_PAGE_SIZE, 8).unwrap();
    let page_count = arena.page_count();
    let reserved = arena.metrics().reserved_bytes;

    arena.rewind(mark);
    arena.allocate(8, 8).unwrap();

    assert_eq!(arena.page_count(), page_count);
    assert_eq!(arena.metrics().reserved_bytes, reserved);
    assert_eq!(arena.active_page_count(), 1);
}

#[test]
fn oversized_inactive_page_is_reused() {
    let mut arena = PagedArena::new(33);
    let big_size = DEFAULT_PAGE_SIZE * 2;
    let mark = arena.mark();
    let original = arena.allocate(big_size, 8).unwrap();
    let reserved = arena.metrics().reserved_bytes;

    arena.rewind(mark);
    let reused = arena.allocate(big_size, 8).unwrap();

    assert_eq!(reused, original);
    assert_eq!(arena.page_count(), 1);
    assert_eq!(arena.metrics().reserved_bytes, reserved);
}

#[test]
fn inactive_page_reuse_uses_smallest_sufficient_capacity() {
    let mut arena = PagedArena::new(34);
    let mark = arena.mark();

    arena.allocate(DEFAULT_PAGE_SIZE * 2, 8).unwrap();
    arena.allocate(DEFAULT_PAGE_SIZE, 8).unwrap();
    arena.rewind(mark);

    arena.allocate(32, 8).unwrap();

    assert_eq!(arena.active_page_capacity(), Some(DEFAULT_PAGE_SIZE));
    assert_eq!(arena.page_count(), 2);
}

#[test]
fn nested_marks_restore_only_their_own_regions() {
    let mut arena = PagedArena::new(35);
    let a = arena.allocate(8, 8).unwrap();
    put(&mut arena, a, 1);

    let outer = arena.mark();
    let b = arena.allocate(8, 8).unwrap();
    put(&mut arena, b, 2);

    let inner = arena.mark();
    let c_address = arena.allocate(8, 8).unwrap();
    arena.rewind(inner);

    assert_eq!(get(&arena, a), 1);
    assert_eq!(get(&arena, b), 2);

    let reused_c = arena.allocate(8, 8).unwrap();
    assert_eq!(reused_c, c_address);
    arena.rewind(outer);

    let a_value = get(&arena, a);
    assert_eq!(a_value, 1);
}

#[test]
fn inner_rewind_does_not_clear_outer_allocation() {
    let mut arena = PagedArena::new(36);
    let outer = arena.mark();
    let outer_value = arena.allocate(8, 8).unwrap();
    put(&mut arena, outer_value, 42);

    let inner = arena.mark();
    arena.allocate(128, 8).unwrap();
    arena.rewind(inner);

    let value = get(&arena, outer_value);
    assert_eq!(value, 42);

    arena.rewind(outer);
}

#[test]
fn reserved_bytes_never_decrease_after_rewind() {
    let mut arena = PagedArena::new(37);
    let mark = arena.mark();
    arena.allocate(DEFAULT_PAGE_SIZE, 8).unwrap();
    arena.allocate(DEFAULT_PAGE_SIZE * 2, 8).unwrap();
    let reserved = arena.metrics().reserved_bytes;

    arena.rewind(mark);

    assert_eq!(arena.metrics().reserved_bytes, reserved);
    assert_eq!(arena.metrics().used_bytes, 0);
}

#[test]
fn mark_after_multiple_pages_preserves_all_prior_pages() {
    let mut arena = PagedArena::new(38);
    let first = arena.allocate(DEFAULT_PAGE_SIZE, 8).unwrap();
    let second = arena.allocate(DEFAULT_PAGE_SIZE, 8).unwrap();
    put(&mut arena, first, 11);
    put(&mut arena, second, 22);

    let mark = arena.mark();
    arena.allocate(DEFAULT_PAGE_SIZE, 8).unwrap();
    arena.rewind(mark);

    assert_eq!(get(&arena, first), 11);
    assert_eq!(get(&arena, second), 22);
    assert_eq!(arena.active_page_count(), 2);
}

#[test]
fn rewind_from_exact_page_limit_reuses_following_page() {
    let mut arena = PagedArena::new(39);
    arena.allocate(DEFAULT_PAGE_SIZE, 8).unwrap();
    let mark = arena.mark();

    arena.allocate(8, 8).unwrap();
    let pages = arena.page_count();
    let reserved = arena.metrics().reserved_bytes;
    arena.rewind(mark);

    arena.allocate(8, 8).unwrap();

    assert_eq!(arena.page_count(), pages);
    assert_eq!(arena.metrics().reserved_bytes, reserved);
    assert_eq!(arena.active_page_count(), 2);
}

#[test]
fn drop_after_multiple_rewinds_does_not_double_free() {
    let mut arena = PagedArena::new(40);

    let outer = arena.mark();
    arena.allocate(DEFAULT_PAGE_SIZE, 8).unwrap();
    let inner = arena.mark();
    arena.allocate(DEFAULT_PAGE_SIZE * 2, 8).unwrap();
    arena.rewind(inner);
    arena.allocate(DEFAULT_PAGE_SIZE * 2, 8).unwrap();
    arena.rewind(outer);

    arena.release();
}

#[test]
fn windows_default_arena_preserves_exact_oversized_logical_capacity() {
    let mut arena = PagedArena::new(69);
    let capacity = DEFAULT_PAGE_SIZE + 1;
    let pointer = arena.allocate(capacity, MAX_ALIGN).unwrap();
    assert_eq!(arena.metrics().reserved_bytes, capacity);
    let bytes = arena.read(pointer, capacity).unwrap();
    assert!(bytes.iter().all(|&byte| byte == 0));
}

#[test]
fn virtual_memory_is_reserved_in_whole_pages() {
    assert_eq!(WindowsVirtualPageBackend::allocation_size(1, 4096), Ok(4096));
    assert_eq!(WindowsVirtualPageBackend::allocation_size(4096, 4096), Ok(4096));
    assert_eq!(
        WindowsVirtualPageBackend::allocation_size(DEFAULT_PAGE_SIZE + 1, 4096),
        Ok(DEFAULT_PAGE_SIZE + 4096)
    );
    assert_eq!(
        WindowsVirtualPageBackend::allocation_size(usize::MAX, 4096),
        Err(ArenaAllocError::AddressSpace)
    );
}

#[test]
fn allocations_of_one_arena_do_not_overlap() {
    let mut arena = PagedArena::new(70);
    let first = arena.allocate(24, 8).unwrap();
    let second = arena.allocate(DEFAULT_PAGE_SIZE, 16).unwrap();
    let third = arena.allocate(1, 1).unwrap();
    let ranges = [
        (first, first + 24),
        (second, second + DEFAULT_PAGE_SIZE as u64),
        (third, third + 1),
    ];
    for (i, a) in ranges.iter().enumerate() {
        for b in &ranges[i + 1..] {
            assert!(a.1 <= b.0 || b.1 <= a.0);
        }
    }
    assert!(arena.contains(first, 24));
    assert!(!arena.write(first + (1 << 40), &[1]));
    assert_eq!(arena.read(first + (1 << 40), 1), None);
}

#[test]
fn a_shared_limit_denies_a_page_and_counts_the_denial() {
    let mut arena = PagedArena::with_memory_governor(MemoryGovernor::new(MIN_PAGE_SIZE), 71);
    arena.allocate(8, 8).unwrap();
    assert_eq!(
        arena.try_alloc(DEFAULT_PAGE_SIZE, 8, usize::MAX),
        Err(ArenaAllocError::SharedLimit {
            hard_limit_bytes: MIN_PAGE_SIZE as u64
        })
    );
    let telemetry = arena.governor_telemetry().unwrap();
    assert_eq!(telemetry.denial_events, 1);
    assert_eq!(telemetry.current_capacity_bytes, MIN_PAGE_SIZE as u64);
    let governor = arena.release().unwrap();
    assert_eq!(governor.telemetry().current_capacity_bytes, 0);
    assert_eq!(governor.telemetry().release_events, 1);
}

#[test]
fn an_address_that_no_number_holds_is_refused() {
    let mut arena = PagedArena::new(72);
    assert_eq!(
        arena.try_alloc(usize::MAX - 3, 8, usize::MAX),
        Err(ArenaAllocError::AddressSpace)
    );
    assert_eq!(align_up(13, 8), Some(16));
}

#[test]
fn a_supplied_page_serves_the_request_and_a_refusal_is_handed_on() {
    let mut arena = PagedArena::new(7);
    let refused = arena.alloc_supplied(Err(ArenaAllocError::OutOfMemory), 64, None, 24, 8);
    assert_eq!(refused, Err(ArenaAllocError::OutOfMemory));
    assert_eq!(arena.page_count(), 0);

    let supplied = Ok(PageBacking::new(vec![0; 64]));
    let address = arena.alloc_supplied(supplied, 64, None, 24, 8).unwrap();
    assert_eq!(address % 8, 0);
    assert_eq!(arena.read(address, 24), Some(vec![0; 24]));
    assert_eq!(arena.metrics().used_bytes, 24);
    assert_eq!(arena.metrics().reserved_bytes, 64);
    assert_eq!(arena.allocate(40, 8), Ok(address + 24));
}

#[test]
fn page_memory_follows_the_reply_of_its_backend() {
    let backend = test_backend(true);
    let refused = BackendPageBacking::allocate(backend, 64, MIN_PAGE_SIZE, MAX_ALIGN);
    assert_eq!(refused.err(), Some(ArenaAllocError::OutOfMemory));
    assert_eq!(backend.allocations(), 1);

    let system = SystemAllocatorPageBackend;
    let too_large = BackendPageBacking::allocate(system, 64, usize::MAX, MAX_ALIGN);
    assert_eq!(too_large.err(), Some(ArenaAllocError::AddressSpace));

    let supplied = Ok(PageBacking::new(vec![0; 48]));
    let owner = BackendPageBacking::from_reply(system, 64, supplied).unwrap();
    assert_eq!(owner.base(), 64);
    assert_eq!(owner.capacity(), 48);
}

#[test]
fn releasing_an_arena_gives_every_grant_back() {
    let mut arena = PagedArena::with_memory_governor(MemoryGovernor::new(1 << 20), 8);
    arena.allocate(16, 8).unwrap();
    arena.allocate(MIN_PAGE_SIZE * 2, 8).unwrap();
    let reserved = arena.metrics().reserved_bytes as u64;
    let telemetry = arena.release().unwrap().telemetry();
    assert_eq!(telemetry.current_capacity_bytes, 0);
    assert_eq!(telemetry.peak_capacity_bytes, reserved);
    assert_eq!(telemetry.grant_events, 2);
    assert_eq!(telemetry.release_events, 2);
    assert_eq!(telemetry.released_bytes_cumulative, reserved);
}

#[test]
fn an_arena_grows_page_by_page_without_a_budget() {
    let mut arena = PagedArena::new(1);
    let mut reserved = 0;
    for pages in 1..=200 {
        arena.allocate(DEFAULT_PAGE_SIZE + 3, 16).unwrap();
        reserved += DEFAULT_PAGE_SIZE + 3;
        assert_eq!(arena.page_count(), pages);
        assert_eq!(arena.metrics().reserved_bytes, reserved);
    }
    let telemetry = arena.telemetry_snapshot().unwrap();
    assert_eq!(telemetry.events.allocation_limit_denials, 0);
}

#[test]
fn a_request_is_refused_for_the_reason_that_holds() {
    let mut governed =
        PagedArena::with_memory_governor(MemoryGovernor::new(MIN_PAGE_SIZE + 5), 1);
    governed.allocate(MIN_PAGE_SIZE, 8).unwrap();
    assert_eq!(
        governed.allocate(8, 8),
        Err(ArenaAllocError::SharedLimit {
            hard_limit_bytes: MIN_PAGE_SIZE as u64 + 5
        })
    );
    assert_eq!(governed.governor_telemetry().unwrap().denial_events, 1);

    let mut failing = PagedArena::with_backend_and_memory_governor(
        test_backend(true),
        MemoryGovernor::new(usize::MAX),
        2,
    );
    assert_eq!(failing.allocate(8, 8), Err(ArenaAllocError::OutOfMemory));

    let mut huge = PagedArena::new(3);
    assert_eq!(
        huge.allocate(usize::MAX, 8),
        Err(ArenaAllocError::AddressSpace)
    );
    huge.allocate(8, 8).unwrap();
    assert_eq!(huge.page_count(), 1);
}

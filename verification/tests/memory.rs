use aster_runtime::array::{
    aster_rt_array_element, aster_rt_array_length, aster_rt_array_new, aster_rt_array_new_temporary,
};
use aster_runtime::context::{ContextIdentity, ExecutionContext, HostDevices, MemoryStats};
use aster_runtime::io::MemoryConsoleBackend;
use aster_runtime::memory_files::MemoryFileSystemBackend;
use aster_runtime::object::{
    aster_rt_object_new, aster_rt_object_new_temporary, aster_rt_temporary_scope_enter,
    aster_rt_temporary_scope_leave,
};

fn identity() -> ContextIdentity {
    ContextIdentity {
        persistent_arena_id: 1,
        temporary_arena_id: 2,
        dictionary_hash_k0: 3,
        dictionary_hash_k1: 4,
        dictionary_owner_id: 5,
    }
}

fn devices() -> HostDevices {
    HostDevices {
        console: Box::new(MemoryConsoleBackend::default()),
        filesystem: Box::new(MemoryFileSystemBackend::new()),
    }
}

fn new_context() -> ExecutionContext {
    ExecutionContext::new(identity(), devices())
}

fn stats_context() -> ExecutionContext {
    ExecutionContext::with_stats(identity(), devices())
}

fn put(context: &mut ExecutionContext, address: u64, value: u64) {
    assert!(context.write_memory(address, &value.to_le_bytes()));
}

fn get(context: &ExecutionContext, address: u64) -> u64 {
    u64::from_le_bytes(context.read_memory(address, 8).unwrap().try_into().unwrap())
}

fn get_u32(context: &ExecutionContext, address: u64) -> u32 {
    u32::from_le_bytes(context.read_memory(address, 4).unwrap().try_into().unwrap())
}

fn view(context: &ExecutionContext, address: u64) -> Option<String> {
    context
        .read_string(address)
        .map(|bytes| String::from_utf8(bytes).unwrap())
}

#[test]
fn allocation_is_zeroed_and_bounds_errors_are_controlled() {
    let mut context = new_context();
    let array = aster_rt_array_new(Some(&mut context), 2, 4).unwrap();
    assert_eq!(aster_rt_array_length(Some(&mut context), Some(&array)), 2);
    let element = aster_rt_array_element(Some(&mut context), Some(&array), 0).unwrap();
    assert_eq!(get_u32(&context, element), 0);
    assert!(aster_rt_array_element(Some(&mut context), Some(&array), 2).is_some());
    assert!(context.take_error().unwrap().contains("outside"));
}

#[test]
fn object_storage_is_zeroed_and_owned_by_the_context() {
    let mut context = new_context();
    let pointer = aster_rt_object_new(Some(&mut context), 16).unwrap();
    let bytes = context.read_memory(pointer, 16).unwrap();
    assert!(bytes.iter().all(|&b| b == 0));
}

#[test]
fn stats_disabled_by_default() {
    let mut context = new_context();
    aster_rt_object_new(Some(&mut context), 16);
    aster_rt_array_new(Some(&mut context), 4, 4);
    context.allocate_string_parts(&[b"hello"]);
    assert_eq!(*context.memory_stats(), MemoryStats::default());
}

#[test]
fn object_allocation_increments_stats() {
    let mut context = stats_context();
    aster_rt_object_new(Some(&mut context), 16);
    let stats = context.memory_stats();
    assert_eq!(stats.total_allocations, 1);
    assert_eq!(stats.object_allocations, 1);
    assert_eq!(stats.array_allocations, 0);
    assert_eq!(stats.string_allocations, 0);
    assert_eq!(stats.requested_bytes, 16);
    assert!(stats.used_bytes >= 16);
    assert!(stats.reserved_bytes >= stats.used_bytes);
    assert_eq!(stats.peak_used_bytes, stats.used_bytes);
}

#[test]
fn array_is_one_logical_allocation() {
    let mut context = stats_context();
    aster_rt_array_new(Some(&mut context), 4, 4);
    let stats = context.memory_stats();
    assert_eq!(stats.total_allocations, 1);
    assert_eq!(stats.array_allocations, 1);
    assert_eq!(stats.object_allocations, 0);
    assert!(stats.requested_bytes >= 16);
    assert!(stats.used_bytes >= stats.requested_bytes);
    assert!(stats.reserved_bytes >= stats.used_bytes);
}

#[test]
fn string_allocation_increments_stats() {
    let mut context = stats_context();
    context.allocate_string_parts(&[b"hello"]);
    let stats = context.memory_stats();
    assert_eq!(stats.total_allocations, 1);
    assert_eq!(stats.string_allocations, 1);
    assert_eq!(stats.object_allocations, 0);
    assert!(stats.requested_bytes > 0);
}

#[test]
fn multiple_allocations_accumulate() {
    let mut context = stats_context();
    aster_rt_object_new(Some(&mut context), 8);
    aster_rt_object_new(Some(&mut context), 8);
    aster_rt_array_new(Some(&mut context), 2, 4);
    let stats = context.memory_stats();
    assert_eq!(stats.total_allocations, 3);
    assert_eq!(stats.object_allocations, 2);
    assert_eq!(stats.array_allocations, 1);
}

#[test]
fn peaks_are_never_below_final_values() {
    let mut context = stats_context();
    aster_rt_object_new(Some(&mut context), 64);
    aster_rt_array_new(Some(&mut context), 10, 8);
    context.allocate_string_parts(&[b"test"]);
    let stats = context.memory_stats();
    assert!(stats.peak_used_bytes >= stats.used_bytes);
    assert!(stats.peak_reserved_bytes >= stats.reserved_bytes);
}

#[test]
fn fresh_context_has_zero_stats() {
    let context = new_context();
    assert_eq!(*context.memory_stats(), MemoryStats::default());
    let context_with = stats_context();
    assert_eq!(*context_with.memory_stats(), MemoryStats::default());
}

#[test]
fn requested_used_reserved_ordering() {
    let mut context = stats_context();
    aster_rt_object_new(Some(&mut context), 3);
    let stats = context.memory_stats();
    assert!(stats.requested_bytes <= stats.used_bytes);
    assert!(stats.used_bytes <= stats.reserved_bytes);
}

#[test]
fn two_objects_have_separate_storage() {
    let mut context = new_context();
    let a = aster_rt_object_new(Some(&mut context), 32).unwrap();
    let b = aster_rt_object_new(Some(&mut context), 32).unwrap();
    assert_ne!(a, b);
    put(&mut context, a, 0xAAAA);
    put(&mut context, b, 0xBBBB);
    assert_eq!(get(&context, a), 0xAAAA);
    assert_eq!(get(&context, b), 0xBBBB);
}

#[test]
fn objects_cross_multiple_pages() {
    let mut context = stats_context();
    let mut ptrs = Vec::new();
    for _ in 0..2048 {
        let p = aster_rt_object_new(Some(&mut context), 64).unwrap();
        ptrs.push(p);
    }
    assert_eq!(context.read_memory(ptrs[0], 1).unwrap(), [0]);
    assert_eq!(context.read_memory(*ptrs.last().unwrap(), 1).unwrap(), [0]);
    assert_ne!(ptrs[0], *ptrs.last().unwrap());
    let stats = context.memory_stats();
    assert_eq!(stats.object_allocations, 2048);
    assert!(stats.reserved_bytes > 64 * 1024);
}

#[test]
fn string_valid_after_other_allocations() {
    let mut context = new_context();
    let s = context.allocate_string_parts(&[b"hello"]).unwrap();
    aster_rt_object_new(Some(&mut context), 128);
    aster_rt_object_new(Some(&mut context), 128);
    assert_eq!(view(&context, s).as_deref(), Some("hello"));
}

#[test]
fn two_strings_have_separate_storage() {
    let mut context = new_context();
    let a = context.allocate_string_parts(&[b"alpha"]).unwrap();
    let b = context.allocate_string_parts(&[b"beta"]).unwrap();
    assert_ne!(a, b);
    assert_eq!(view(&context, a).as_deref(), Some("alpha"));
    assert_eq!(view(&context, b).as_deref(), Some("beta"));
}

#[test]
fn strings_cross_multiple_pages() {
    let mut context = stats_context();
    let long_part = "x".repeat(1024);
    let mut ptrs = Vec::new();
    for _ in 0..128 {
        let p = context
            .allocate_string_parts(&[long_part.as_bytes()])
            .unwrap();
        ptrs.push(p);
    }
    assert_eq!(view(&context, ptrs[0]).as_deref(), Some(long_part.as_str()));
    assert_eq!(context.memory_stats().string_allocations, 128);
}

#[test]
fn array_header_and_data_valid_after_new_pages() {
    let mut context = new_context();
    let array = aster_rt_array_new(Some(&mut context), 4, 4).unwrap();
    for _ in 0..4 {
        aster_rt_object_new(Some(&mut context), 32768);
    }
    assert_eq!(aster_rt_array_length(Some(&mut context), Some(&array)), 4);
    let elem = aster_rt_array_element(Some(&mut context), Some(&array), 3).unwrap();
    assert_eq!(get_u32(&context, elem), 0);
}

#[test]
fn large_array_exceeds_default_page() {
    let mut context = stats_context();
    let array = aster_rt_array_new(Some(&mut context), 100_000, 8).unwrap();
    assert_eq!(
        aster_rt_array_length(Some(&mut context), Some(&array)),
        100_000
    );
    let last = aster_rt_array_element(Some(&mut context), Some(&array), 99_999);
    assert!(last.is_some());
    assert!(context.take_error().is_none());
    let stats = context.memory_stats();
    assert_eq!(stats.array_allocations, 1);
    assert!(stats.reserved_bytes >= 800_000);
}

#[test]
fn arena_metrics_known_sequence() {
    let mut context = stats_context();
    aster_rt_object_new(Some(&mut context), 16);
    let stats = context.memory_stats();
    assert_eq!(stats.requested_bytes, 16);
    assert_eq!(stats.used_bytes, 16);
    assert_eq!(stats.reserved_bytes, 64 * 1024);
    assert_eq!(stats.peak_used_bytes, stats.used_bytes);
    assert_eq!(stats.peak_reserved_bytes, stats.reserved_bytes);
}

#[test]
fn independent_contexts_have_independent_arenas() {
    let mut a = stats_context();
    let mut b = stats_context();
    aster_rt_object_new(Some(&mut a), 32);
    aster_rt_object_new(Some(&mut b), 64);
    assert_eq!(a.memory_stats().requested_bytes, 32);
    assert_eq!(b.memory_stats().requested_bytes, 64);
}

#[test]
fn many_object_allocations_cross_multiple_pages() {
    let mut context = stats_context();
    for _ in 0..10_000 {
        assert!(aster_rt_object_new(Some(&mut context), 32).is_some());
    }
    let stats = context.memory_stats();
    assert_eq!(stats.total_allocations, 10_000);
    assert_eq!(stats.object_allocations, 10_000);
    assert_eq!(stats.requested_bytes, 320_000);
    assert!(stats.used_bytes >= 320_000);
    assert!(stats.reserved_bytes >= stats.used_bytes);
    assert!(stats.reserved_bytes <= stats.used_bytes * 2);
}

#[test]
fn fresh_context_owns_two_empty_arenas() {
    let context = new_context();
    let persistent = context.arena_metrics(false);
    let temporary = context.arena_metrics(true);

    assert_eq!(persistent.used_bytes, 0);
    assert_eq!(persistent.reserved_bytes, 0);
    assert_eq!(temporary.used_bytes, 0);
    assert_eq!(temporary.reserved_bytes, 0);
}

#[test]
fn normal_allocations_use_only_the_persistent_arena() {
    let mut context = stats_context();
    aster_rt_object_new(Some(&mut context), 32);

    let persistent = context.arena_metrics(false);
    let temporary = context.arena_metrics(true);
    let stats = context.memory_stats();

    assert_eq!(persistent.used_bytes, 32);
    assert_eq!(temporary.used_bytes, 0);
    assert_eq!(temporary.reserved_bytes, 0);
    assert_eq!(stats.used_bytes, 32);
    assert_eq!(stats.reserved_bytes, 64 * 1024);
    assert_eq!(stats.total_allocations, 1);
    assert_eq!(stats.object_allocations, 1);
    assert_eq!(stats.requested_bytes, 32);
}

#[test]
fn temporary_allocation_updates_combined_usage_without_logical_counts() {
    let mut context = stats_context();
    let pointer = context.allocate_temporary(32, 8);

    assert!(pointer.is_some());
    assert_eq!(context.arena_metrics(false).used_bytes, 0);
    assert_eq!(context.arena_metrics(true).used_bytes, 32);

    let stats = context.memory_stats();
    assert_eq!(stats.used_bytes, 32);
    assert_eq!(stats.reserved_bytes, 64 * 1024);
    assert_eq!(stats.peak_used_bytes, 32);
    assert_eq!(stats.peak_reserved_bytes, 64 * 1024);
    assert_eq!(stats.total_allocations, 0);
    assert_eq!(stats.requested_bytes, 0);
}

#[test]
fn temporary_rewind_restores_usage_but_keeps_capacity_and_peak() {
    let mut context = stats_context();
    let mark = context.mark_temporary();
    context.allocate_temporary(1024, 8);

    let reserved = context.memory_stats().reserved_bytes;
    let peak_used = context.memory_stats().peak_used_bytes;
    context.rewind_temporary(mark);

    let stats = context.memory_stats();
    assert_eq!(context.arena_metrics(true).used_bytes, 0);
    assert_eq!(stats.used_bytes, 0);
    assert_eq!(stats.reserved_bytes, reserved);
    assert_eq!(stats.peak_used_bytes, peak_used);
    assert_eq!(peak_used, 1024);
}

#[test]
fn temporary_rewind_preserves_data_allocated_before_the_mark() {
    let mut context = stats_context();
    let persistent_temporary = context.allocate_temporary(8, 8).unwrap();
    put(&mut context, persistent_temporary, 0xCAFE_BABE);

    let mark = context.mark_temporary();
    context.allocate_temporary(256, 8);
    context.rewind_temporary(mark);

    assert_eq!(get(&context, persistent_temporary), 0xCAFE_BABE);
    assert_eq!(context.memory_stats().used_bytes, 8);
}

#[test]
fn rewound_temporary_memory_is_zeroed_when_reused() {
    let mut context = stats_context();
    let mark = context.mark_temporary();
    let old = context.allocate_temporary(64, 8).unwrap();
    assert!(context.write_memory(old, &[0xAB; 64]));

    context.rewind_temporary(mark);
    let reused = context.allocate_temporary(64, 8).unwrap();

    assert_eq!(reused, old);
    let bytes = context.read_memory(reused, 64).unwrap();
    assert!(bytes.iter().all(|&byte| byte == 0));
}

#[test]
fn temporary_capacity_is_reused_after_rewind() {
    let mut context = stats_context();
    let mark = context.mark_temporary();
    context.allocate_temporary(64 * 1024, 8);
    let reserved = context.arena_metrics(true).reserved_bytes;

    context.rewind_temporary(mark);
    context.allocate_temporary(64, 8);

    assert_eq!(context.arena_metrics(true).reserved_bytes, reserved);
    assert_eq!(context.memory_stats().reserved_bytes, reserved as u64);
}

#[test]
fn combined_peak_is_the_maximum_simultaneous_usage() {
    let mut context = stats_context();
    let mark = context.mark_temporary();
    context.allocate_temporary(64 * 1024, 8);
    assert_eq!(context.memory_stats().peak_used_bytes, 64 * 1024);

    context.rewind_temporary(mark);
    aster_rt_object_new(Some(&mut context), 32 * 1024);

    let stats = context.memory_stats();
    assert_eq!(stats.used_bytes, 32 * 1024);
    assert_eq!(stats.peak_used_bytes, 64 * 1024);
    assert_ne!(stats.peak_used_bytes, 96 * 1024);
}

#[test]
fn nested_temporary_marks_rewind_in_lifo_order() {
    let mut context = stats_context();
    let outer = context.mark_temporary();
    context.allocate_temporary(8, 8);
    let inner = context.mark_temporary();
    context.allocate_temporary(16, 8);

    context.rewind_temporary(inner);
    assert_eq!(context.memory_stats().used_bytes, 8);

    context.rewind_temporary(outer);
    assert_eq!(context.memory_stats().used_bytes, 0);
}

#[test]
fn temporary_object_scope_rewinds_usage_and_preserves_logical_stats() {
    let mut context = stats_context();

    aster_rt_temporary_scope_enter(Some(&mut context));
    let object = aster_rt_object_new_temporary(Some(&mut context), 32);
    assert!(object.is_some());
    assert_eq!(context.memory_stats().used_bytes, 32);

    aster_rt_temporary_scope_leave(Some(&mut context));

    let stats = context.memory_stats();
    assert_eq!(stats.total_allocations, 1);
    assert_eq!(stats.object_allocations, 1);
    assert_eq!(stats.requested_bytes, 32);
    assert_eq!(stats.used_bytes, 0);
    assert_eq!(stats.reserved_bytes, 64 * 1024);
    assert_eq!(stats.peak_used_bytes, 32);
}

#[test]
fn nested_runtime_temporary_scopes_preserve_outer_objects() {
    let mut context = stats_context();

    aster_rt_temporary_scope_enter(Some(&mut context));
    let outer = aster_rt_object_new_temporary(Some(&mut context), 8).unwrap();
    put(&mut context, outer, 42);

    aster_rt_temporary_scope_enter(Some(&mut context));
    let inner = aster_rt_object_new_temporary(Some(&mut context), 16);
    assert!(inner.is_some());
    aster_rt_temporary_scope_leave(Some(&mut context));

    assert_eq!(get(&context, outer), 42);
    assert_eq!(context.memory_stats().used_bytes, 8);

    aster_rt_temporary_scope_leave(Some(&mut context));
    assert_eq!(context.memory_stats().used_bytes, 0);
    assert_eq!(context.memory_stats().object_allocations, 2);
}

#[test]
fn unmatched_runtime_temporary_scope_leave_is_controlled() {
    let mut context = new_context();

    aster_rt_temporary_scope_leave(Some(&mut context));

    assert!(context
        .take_error()
        .is_some_and(|error| error.contains("no matching enter")));
}

#[test]
fn temporary_object_without_scope_is_rejected_without_panicking() {
    let mut context = new_context();

    let object = aster_rt_object_new_temporary(Some(&mut context), 16);

    assert!(object.is_none());
    assert!(context
        .take_error()
        .is_some_and(|error| error.contains("active temporary scope")));
}

#[test]
fn temporary_array_scope_rewinds_header_and_data_together() {
    let mut context = stats_context();

    aster_rt_temporary_scope_enter(Some(&mut context));
    let array = aster_rt_array_new_temporary(Some(&mut context), 2, 4).unwrap();
    assert_eq!(aster_rt_array_length(Some(&mut context), Some(&array)), 2);
    let element = aster_rt_array_element(Some(&mut context), Some(&array), 1).unwrap();
    assert!(context.write_memory(element, &42_u32.to_le_bytes()));
    assert_eq!(get_u32(&context, element), 42);
    assert!(context.memory_stats().used_bytes > 0);

    aster_rt_temporary_scope_leave(Some(&mut context));

    let stats = context.memory_stats();
    assert_eq!(stats.total_allocations, 1);
    assert_eq!(stats.array_allocations, 1);
    assert_eq!(stats.used_bytes, 0);
    assert!(stats.peak_used_bytes > 0);
}

#[test]
fn temporary_string_scope_rewinds_storage() {
    let mut context = stats_context();

    aster_rt_temporary_scope_enter(Some(&mut context));
    let string = context
        .allocate_temporary_string_parts(&[b"Aster"])
        .unwrap();
    assert_eq!(view(&context, string).as_deref(), Some("Aster"));

    aster_rt_temporary_scope_leave(Some(&mut context));

    let stats = context.memory_stats();
    assert_eq!(stats.total_allocations, 1);
    assert_eq!(stats.string_allocations, 1);
    assert_eq!(stats.used_bytes, 0);
    assert!(stats.peak_used_bytes > 0);
}

#[test]
fn temporary_array_and_string_require_an_active_scope() {
    let mut context = new_context();

    let array = aster_rt_array_new_temporary(Some(&mut context), 1, 4);
    assert!(array.is_none());
    assert!(context
        .take_error()
        .is_some_and(|error| error.contains("temporary array allocation")));

    let string = context.allocate_temporary_string_parts(&[b"Aster"]);
    assert!(string.is_none());
    assert!(context
        .take_error()
        .is_some_and(|error| error.contains("temporary string allocation")));
}

#[test]
fn the_first_error_is_kept_until_it_is_taken() {
    let mut context = new_context();
    context.fail_with("first");
    context.fail_with("second");
    assert!(context.has_error());
    assert_eq!(context.take_error().as_deref(), Some("first"));
    assert!(!context.has_error());
    assert_eq!(context.take_error(), None);
}

#[test]
fn what_was_written_is_read_back_and_nothing_outside_is_touched() {
    let mut context = new_context();
    let first = aster_rt_object_new(Some(&mut context), 8).unwrap();
    let second = aster_rt_object_new(Some(&mut context), 8).unwrap();
    put(&mut context, first, u64::MAX);
    assert_eq!(get(&context, first), u64::MAX);
    assert_eq!(get(&context, second), 0);
    assert!(!context.write_memory(0, &[1]));
    assert_eq!(context.read_memory(first, 1 << 40), None);
}

#[test]
fn a_size_that_is_negative_asks_for_the_smallest_object() {
    let mut context = stats_context();
    assert!(aster_rt_object_new(Some(&mut context), -5).is_some());
    assert_eq!(context.memory_stats().requested_bytes, 1);
    assert_eq!(aster_rt_object_new(None, 8), None);
}

#[test]
fn an_execution_limit_denies_memory_and_says_so() {
    let mut context = ExecutionContext::with_memory_limit(identity(), 4096, devices());
    assert!(aster_rt_object_new(Some(&mut context), 4096).is_some());
    assert!(aster_rt_object_new(Some(&mut context), 8).is_none());
    assert!(context
        .take_error()
        .is_some_and(|error| error.contains("execution memory limit")));
}

#[test]
fn statistics_never_fall_while_scopes_come_and_go() {
    let mut context = stats_context();
    let mut last = *context.memory_stats();
    assert_eq!(last, MemoryStats::default());
    for turn in 0..6 {
        context.enter_temporary_scope();
        context.allocate_temporary_object(64 * (turn + 1));
        aster_rt_array_new(Some(&mut context), 4, 4);
        context.allocate_string_parts(&[b"text"]);
        context.leave_temporary_scope();
        let stats = *context.memory_stats();
        assert_eq!(
            stats.total_allocations,
            stats.object_allocations + stats.array_allocations + stats.string_allocations
        );
        assert!(stats.used_bytes <= stats.reserved_bytes);
        assert!(stats.used_bytes <= stats.peak_used_bytes);
        assert!(stats.reserved_bytes <= stats.peak_reserved_bytes);
        assert!(stats.total_allocations > last.total_allocations);
        assert!(stats.requested_bytes > last.requested_bytes);
        assert!(stats.peak_used_bytes >= last.peak_used_bytes);
        assert!(stats.peak_reserved_bytes >= last.peak_reserved_bytes);
        last = stats;
    }
}

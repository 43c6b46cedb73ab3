use aster_runtime::context::{ContextIdentity, ExecutionContext, HostDevices};
use aster_runtime::io::MemoryConsoleBackend;
use aster_runtime::memory_files::MemoryFileSystemBackend;
use aster_runtime::list::{
    aster_rt_list_add, aster_rt_list_get, aster_rt_list_length, aster_rt_list_new,
    aster_rt_list_new_temporary, aster_rt_list_remove_at, aster_rt_list_version,
    aster_rt_list_version_mismatch, AsterList, ListRegion,
};
use aster_runtime::object::aster_rt_object_new;

fn identity() -> ContextIdentity {
    ContextIdentity {
        persistent_arena_id: 1,
        temporary_arena_id: 2,
        dictionary_hash_k0: 3,
        dictionary_hash_k1: 4,
        dictionary_owner_id: 5,
    }
}

fn devices() -> HostDevices {
    HostDevices {
        console: Box::new(MemoryConsoleBackend::default()),
        filesystem: Box::new(MemoryFileSystemBackend::new()),
    }
}

fn new_context() -> ExecutionContext {
    ExecutionContext::new(identity(), devices())
}

fn stats_context() -> ExecutionContext {
    ExecutionContext::with_stats(identity(), devices())
}

fn read_i32(context: &ExecutionContext, address: u64) -> i32 {
    i32::from_le_bytes(context.read_memory(address, 4).unwrap().try_into().unwrap())
}

fn add(
    context: &mut ExecutionContext,
    list: &mut AsterList,
    size: i32,
    align: i32,
    key: i64,
    value: i32,
) {
    let source = value.to_le_bytes();
    aster_rt_list_add(Some(context), Some(list), size, align, key, Some(&source));
}

fn get(
    context: &mut ExecutionContext,
    list: &AsterList,
    size: i32,
    align: i32,
    key: i64,
    index: i32,
    out: &mut i32,
) {
    let mut bytes = out.to_le_bytes().to_vec();
    aster_rt_list_get(
        Some(context),
        Some(list),
        size,
        align,
        key,
        index,
        Some(&mut bytes),
    );
    *out = i32::from_le_bytes(bytes.try_into().unwrap());
}

fn remove_at(
    context: &mut ExecutionContext,
    list: &mut AsterList,
    size: i32,
    align: i32,
    key: i64,
    index: i32,
) {
    aster_rt_list_remove_at(Some(context), Some(list), size, align, key, index);
}

fn length(context: &mut ExecutionContext, list: &AsterList) -> i32 {
    aster_rt_list_length(Some(context), Some(list))
}

#[test]
fn empty_list_header_satisfies_every_invariant() {
    let mut context = new_context();
    let header = context.allocate_list_in_region(4, 4, 0xdead_beef, ListRegion::Persistent);
    let list = header.unwrap();
    assert_eq!(list.length(), 0);
    assert_eq!(list.capacity(), 0);
    assert_eq!(list.element_size(), 4);
    assert_eq!(list.element_align(), 4);
    assert_eq!(list.element_type_key(), 0xdead_beef);
    assert_eq!(list.region(), ListRegion::Persistent);
    assert!(context.take_error().is_none());
}

#[test]
fn list_rejects_zero_element_size() {
    let mut context = new_context();
    let header = context.allocate_list_in_region(0, 4, 1, ListRegion::Persistent);
    assert!(header.is_none());
    assert!(
        context
            .take_error()
            .is_some_and(|error| error.contains("size"))
    );
}
#[test]
fn list_rejects_non_power_of_two_alignment() {
    let mut context = new_context();
    let header = context.allocate_list_in_region(4, 3, 1, ListRegion::Persistent);
    assert!(header.is_none());
    assert!(
        context
            .take_error()
            .is_some_and(|error| error.contains("alignment"))
    );

    let mut context = new_context();
    let header = context.allocate_list_in_region(4, 0, 1, ListRegion::Persistent);
    assert!(header.is_none());
    assert!(context.take_error().is_some());
}

#[test]
fn list_rejects_alignment_beyond_the_arena_maximum() {
    let mut context = new_context();
    let header = context.allocate_list_in_region(4, 32, 1, ListRegion::Persistent);
    assert!(header.is_none());
    assert!(
        context
            .take_error()
            .is_some_and(|error| error.contains("exceeds the arena's maximum"))
    );
}

#[test]
fn temporary_list_requires_an_active_scope() {
    let mut context = new_context();
    let header = context.allocate_list_in_region(4, 4, 1, ListRegion::Temporary);
    assert!(header.is_none());
    assert!(
        context
            .take_error()
            .is_some_and(|error| error.contains("temporary scope"))
    );
}

#[test]
fn temporary_list_succeeds_inside_an_active_scope_and_records_its_region() {
    let mut context = new_context();
    context.enter_temporary_scope();
    let header = context.allocate_list_in_region(8, 8, 42, ListRegion::Temporary);
    let list = header.unwrap();
    assert_eq!(list.region(), ListRegion::Temporary);
    context.leave_temporary_scope();
}

#[test]
fn independent_list_headers_do_not_share_storage() {
    let mut context = new_context();
    let first = context.allocate_list_in_region(4, 4, 1, ListRegion::Persistent);
    let second = context.allocate_list_in_region(8, 8, 2, ListRegion::Persistent);
    let (first, second) = (first.unwrap(), second.unwrap());
    assert_ne!(first.address, second.address);
    assert_eq!(first.element_type_key(), 1);
    assert_eq!(second.element_type_key(), 2);
}

#[test]
fn aliasing_a_list_reference_preserves_pointer_identity() {
    let mut context = new_context();
    let mut list = context
        .allocate_list_in_region(4, 4, 1, ListRegion::Persistent)
        .unwrap();
    let address = list.address;
    let a = &mut list;
    a.length = 7;
    let b = &list;
    assert_eq!(b.address, address);
    assert_eq!(b.length, 7);
}

#[test]
fn list_new_and_length_have_controlled_errors_for_null_pointers() {
    let mut context = new_context();
    assert!(aster_rt_list_new(None, 4, 4, 1).is_none());
    assert!(aster_rt_list_new_temporary(None, 4, 4, 1).is_none());
    assert_eq!(aster_rt_list_length(Some(&mut context), None), 0);
    assert_eq!(aster_rt_list_length(None, None), 0);
}

#[test]
fn list_new_produces_a_header_readable_through_list_length() {
    let mut context = new_context();
    let mut list = aster_rt_list_new(Some(&mut context), 4, 4, 42).unwrap();
    assert_eq!(length(&mut context, &list), 0);
    assert_eq!(list.region(), ListRegion::Persistent);
}

#[test]
fn list_new_temporary_requires_an_active_scope() {
    let mut context = new_context();
    assert!(aster_rt_list_new_temporary(Some(&mut context), 4, 4, 1).is_none());
    context.enter_temporary_scope();
    let mut list = aster_rt_list_new_temporary(Some(&mut context), 4, 4, 1).unwrap();
    assert_eq!(list.region(), ListRegion::Temporary);
}

#[test]
fn list_add_appends_and_increments_length() {
    let mut context = new_context();
    let mut list = aster_rt_list_new(Some(&mut context), 4, 4, 1).unwrap();
    let value = 10_i32;
    add(&mut context, &mut list, 4, 4, 1, value);
    assert!(context.take_error().is_none());
    assert_eq!(length(&mut context, &list), 1);
    assert_eq!(list.capacity(), 4);
    assert_eq!(read_i32(&context, list.data), 10);
}

#[test]
fn list_add_grows_geometrically_and_preserves_every_previous_element() {
    let mut context = new_context();
    let mut list = aster_rt_list_new(Some(&mut context), 4, 4, 1).unwrap();
    let expected_capacities = [4, 4, 4, 4, 8, 8, 8, 8, 16, 16, 16, 16, 16, 16, 16, 16, 32];
    for (index, &expected_capacity) in expected_capacities.iter().enumerate() {
        let value = i32::try_from(index).expect("small index");
        add(&mut context, &mut list, 4, 4, 1, value);
        assert!(context.take_error().is_none(), "add {index} failed");
        assert_eq!(list.capacity(), expected_capacity, "after add {index}");
    }
    assert_eq!(
        length(&mut context, &list),
        i32::try_from(expected_capacities.len()).unwrap()
    );
    for index in 0..expected_capacities.len() {
        let stored = read_i32(&context, list.data + 4 * index as u64);
        assert_eq!(stored, i32::try_from(index).unwrap(), "element {index}");
    }
}

#[test]
fn list_add_does_not_grow_when_space_remains() {
    let mut context = new_context();
    let mut list = aster_rt_list_new(Some(&mut context), 4, 4, 1).unwrap();
    let value = 1_i32;
    add(&mut context, &mut list, 4, 4, 1, value);
    let data_after_first_add = list.data;
    add(&mut context, &mut list, 4, 4, 1, value);
    assert_eq!(list.data, data_after_first_add, "buffer must not move");
    assert_eq!(list.capacity(), 4, "capacity must not change");
}

#[test]
fn list_add_rejects_a_null_list() {
    let mut context = new_context();
    let value = 1_i32;
    aster_rt_list_add(
        Some(&mut context),
        None,
        4,
        4,
        1,
        Some(&value.to_le_bytes()),
    );
    assert!(context.take_error().is_some());
}

#[test]
fn list_add_rejects_a_null_source() {
    let mut context = new_context();
    let mut list = aster_rt_list_new(Some(&mut context), 4, 4, 1).unwrap();
    aster_rt_list_add(Some(&mut context), Some(&mut list), 4, 4, 1, None);
    assert!(context.take_error().is_some());
    assert_eq!(length(&mut context, &list), 0);
}

#[test]
fn list_add_rejects_element_size_mismatch() {
    let mut context = new_context();
    let mut list = aster_rt_list_new(Some(&mut context), 4, 4, 1).unwrap();
    let value = 1_i32;
    add(&mut context, &mut list, 8, 4, 1, value);
    assert!(
        context
            .take_error()
            .is_some_and(|error| error.contains("size mismatch"))
    );
    assert_eq!(length(&mut context, &list), 0);
}

#[test]
fn list_add_rejects_element_align_mismatch() {
    let mut context = new_context();
    let mut list = aster_rt_list_new(Some(&mut context), 4, 4, 1).unwrap();
    let value = 1_i32;
    add(&mut context, &mut list, 4, 8, 1, value);
    assert!(
        context
            .take_error()
            .is_some_and(|error| error.contains("alignment mismatch"))
    );
    assert_eq!(length(&mut context, &list), 0);
}

#[test]
fn list_add_rejects_element_type_key_mismatch() {
    let mut context = new_context();
    let mut list = aster_rt_list_new(Some(&mut context), 4, 4, 1).unwrap();
    let value = 1_i32;
    add(&mut context, &mut list, 4, 4, 2, value);
    assert!(
        context
            .take_error()
            .is_some_and(|error| error.contains("type key mismatch"))
    );
    assert_eq!(length(&mut context, &list), 0);
}

#[test]
fn list_add_rejects_a_header_with_negative_length() {
    let mut context = new_context();
    let mut list = aster_rt_list_new(Some(&mut context), 4, 4, 1).unwrap();
    list.length = -1;
    let value = 1_i32;
    add(&mut context, &mut list, 4, 4, 1, value);
    assert!(
        context
            .take_error()
            .is_some_and(|error| error.contains("negative length"))
    );
}

#[test]
fn list_add_rejects_a_header_with_length_greater_than_capacity() {
    let mut context = new_context();
    let mut list = aster_rt_list_new(Some(&mut context), 4, 4, 1).unwrap();
    list.length = 5;
    let value = 1_i32;
    add(&mut context, &mut list, 4, 4, 1, value);
    assert!(
        context
            .take_error()
            .is_some_and(|error| error.contains("length greater than"))
    );
}

#[test]
fn list_add_rejects_a_header_with_positive_capacity_but_null_data() {
    let mut context = new_context();
    let mut list = aster_rt_list_new(Some(&mut context), 4, 4, 1).unwrap();
    list.capacity = 4;
    let value = 1_i32;
    add(&mut context, &mut list, 4, 4, 1, value);
    assert!(
        context
            .take_error()
            .is_some_and(|error| error.contains("null data pointer"))
    );
}

#[test]
fn list_add_rejects_a_header_with_alignment_beyond_the_arena_maximum() {
    let mut context = new_context();
    let mut list = aster_rt_list_new(Some(&mut context), 4, 4, 1).unwrap();
    list.element_align = 32;
    let value = 1_i32;
    add(&mut context, &mut list, 4, 32, 1, value);
    assert!(
        context
            .take_error()
            .is_some_and(|error| error.contains("exceeds the arena's maximum"))
    );
    assert_eq!(length(&mut context, &list), 0);
}

#[test]
fn list_add_rejects_capacity_overflow_while_growing() {
    let mut context = new_context();
    let mut list = aster_rt_list_new(Some(&mut context), 4, 4, 1).unwrap();
    list.length = i32::MAX;
    list.capacity = i32::MAX;
    list.data = 8;
    let value = 1_i32;
    add(&mut context, &mut list, 4, 4, 1, value);
    assert!(
        context
            .take_error()
            .is_some_and(|error| error.contains("capacity overflow"))
    );
    assert_eq!(length(&mut context, &list), i32::MAX);
}

#[test]
fn list_add_requires_an_active_temporary_scope_to_grow_a_temporary_list() {
    let mut context = new_context();
    let mut list = aster_rt_list_new(Some(&mut context), 4, 4, 1).unwrap();
    list.region = ListRegion::Temporary;
    let value = 1_i32;
    add(&mut context, &mut list, 4, 4, 1, value);
    assert!(
        context
            .take_error()
            .is_some_and(|error| error.contains("temporary list growth"))
    );
    assert_eq!(length(&mut context, &list), 0);
}

#[test]
fn list_add_stores_reference_identity_not_a_structural_copy() {
    let mut context = new_context();
    let pointer_size = 8;
    let pointer_align = 8;
    let mut list = aster_rt_list_new(Some(&mut context), pointer_size, pointer_align, 7).unwrap();
    let reference = aster_rt_object_new(Some(&mut context), 4).unwrap();
    assert!(context.write_memory(reference, &42_i32.to_le_bytes()));
    aster_rt_list_add(
        Some(&mut context),
        Some(&mut list),
        pointer_size,
        pointer_align,
        7,
        Some(&reference.to_le_bytes()),
    );
    assert!(context.take_error().is_none());
    let bytes = context.read_memory(list.data, 8).unwrap();
    let stored = u64::from_le_bytes(bytes.try_into().unwrap());
    assert_eq!(
        stored, reference,
        "stored pointer must be the same identity"
    );
    assert_eq!(read_i32(&context, stored), 42);
}

#[test]
fn list_get_reads_the_correct_element() {
    let mut context = new_context();
    let mut list = aster_rt_list_new(Some(&mut context), 4, 4, 1).unwrap();
    for value in [10_i32, 20, 30] {
        add(&mut context, &mut list, 4, 4, 1, value);
    }
    assert!(context.take_error().is_none());
    for (index, expected) in [(0_i32, 10_i32), (1, 20), (2, 30)] {
        let mut out = 0_i32;
        get(&mut context, &list, 4, 4, 1, index, &mut out);
        assert!(context.take_error().is_none(), "Get({index}) failed");
        assert_eq!(out, expected, "Get({index})");
    }
}

#[test]
fn list_get_does_not_modify_the_list() {
    let mut context = new_context();
    let mut list = aster_rt_list_new(Some(&mut context), 4, 4, 1).unwrap();
    let value = 1_i32;
    add(&mut context, &mut list, 4, 4, 1, value);
    let mut out = 0_i32;
    get(&mut context, &list, 4, 4, 1, 0, &mut out);
    assert_eq!(length(&mut context, &list), 1);
    assert_eq!(list.capacity(), 4);
}

#[test]
fn list_get_rejects_a_null_list() {
    let mut context = new_context();
    let mut out = 0_i32;
    let mut bytes = vec![0_u8; 4];
    aster_rt_list_get(Some(&mut context), None, 4, 4, 1, 0, Some(&mut bytes));
    assert!(context.take_error().is_some());
}

#[test]
fn list_get_rejects_a_null_destination() {
    let mut context = new_context();
    let mut list = aster_rt_list_new(Some(&mut context), 4, 4, 1).unwrap();
    let value = 1_i32;
    add(&mut context, &mut list, 4, 4, 1, value);
    aster_rt_list_get(Some(&mut context), Some(&list), 4, 4, 1, 0, None);
    assert!(context.take_error().is_some());
}

#[test]
fn list_get_rejects_element_size_mismatch() {
    let mut context = new_context();
    let mut list = aster_rt_list_new(Some(&mut context), 4, 4, 1).unwrap();
    let value = 1_i32;
    add(&mut context, &mut list, 4, 4, 1, value);
    let mut out = 0_i32;
    get(&mut context, &list, 8, 4, 1, 0, &mut out);
    assert!(
        context
            .take_error()
            .is_some_and(|error| error.contains("size mismatch"))
    );
}

#[test]
fn list_get_rejects_element_align_mismatch() {
    let mut context = new_context();
    let mut list = aster_rt_list_new(Some(&mut context), 4, 4, 1).unwrap();
    let value = 1_i32;
    add(&mut context, &mut list, 4, 4, 1, value);
    let mut out = 0_i32;
    get(&mut context, &list, 4, 8, 1, 0, &mut out);
    assert!(
        context
            .take_error()
            .is_some_and(|error| error.contains("alignment mismatch"))
    );
}

#[test]
fn list_get_rejects_element_type_key_mismatch() {
    let mut context = new_context();
    let mut list = aster_rt_list_new(Some(&mut context), 4, 4, 1).unwrap();
    let value = 1_i32;
    add(&mut context, &mut list, 4, 4, 1, value);
    let mut out = 0_i32;
    get(&mut context, &list, 4, 4, 2, 0, &mut out);
    assert!(
        context
            .take_error()
            .is_some_and(|error| error.contains("type key mismatch"))
    );
}

#[test]
fn list_get_rejects_a_negative_index() {
    let mut context = new_context();
    let mut list = aster_rt_list_new(Some(&mut context), 4, 4, 1).unwrap();
    let value = 1_i32;
    add(&mut context, &mut list, 4, 4, 1, value);
    let mut out = 0_i32;
    get(&mut context, &list, 4, 4, 1, -1, &mut out);
    assert!(
        context
            .take_error()
            .is_some_and(|error| error.contains("negative"))
    );
}

#[test]
fn list_get_rejects_an_index_on_an_empty_list() {
    let mut context = new_context();
    let mut list = aster_rt_list_new(Some(&mut context), 4, 4, 1).unwrap();
    let mut out = 0_i32;
    get(&mut context, &list, 4, 4, 1, 0, &mut out);
    assert!(
        context
            .take_error()
            .is_some_and(|error| error.contains("out of bounds"))
    );
}

#[test]
fn list_get_rejects_an_index_equal_to_length() {
    let mut context = new_context();
    let mut list = aster_rt_list_new(Some(&mut context), 4, 4, 1).unwrap();
    let value = 1_i32;
    add(&mut context, &mut list, 4, 4, 1, value);
    let mut out = 0_i32;
    get(&mut context, &list, 4, 4, 1, 1, &mut out);
    assert!(
        context
            .take_error()
            .is_some_and(|error| error.contains("out of bounds"))
    );
}

#[test]
fn list_get_rejects_an_index_far_beyond_length() {
    let mut context = new_context();
    let mut list = aster_rt_list_new(Some(&mut context), 4, 4, 1).unwrap();
    let value = 1_i32;
    add(&mut context, &mut list, 4, 4, 1, value);
    let mut out = 0_i32;
    get(&mut context, &list, 4, 4, 1, 1000, &mut out);
    assert!(
        context
            .take_error()
            .is_some_and(|error| error.contains("out of bounds"))
    );
}

#[test]
fn list_get_rejects_a_header_with_negative_length() {
    let mut context = new_context();
    let mut list = aster_rt_list_new(Some(&mut context), 4, 4, 1).unwrap();
    list.length = -1;
    let mut out = 0_i32;
    get(&mut context, &list, 4, 4, 1, 0, &mut out);
    assert!(
        context
            .take_error()
            .is_some_and(|error| error.contains("negative length"))
    );
}

#[test]
fn list_get_error_does_not_contaminate_a_later_valid_call() {
    let mut context = new_context();
    let mut list = aster_rt_list_new(Some(&mut context), 4, 4, 1).unwrap();
    let value = 7_i32;
    add(&mut context, &mut list, 4, 4, 1, value);
    let mut out = 0_i32;
    get(&mut context, &list, 4, 4, 1, 5, &mut out);
    assert!(context.take_error().is_some());
    get(&mut context, &list, 4, 4, 1, 0, &mut out);
    assert!(context.take_error().is_none());
    assert_eq!(out, 7);
}

#[test]
fn list_get_does_not_grow_the_arena_across_many_calls() {
    let mut context = stats_context();
    let mut list = aster_rt_list_new(Some(&mut context), 4, 4, 1).unwrap();
    let value = 1_i32;
    add(&mut context, &mut list, 4, 4, 1, value);
    let used_before = context.memory_stats().used_bytes;
    for _ in 0..1000 {
        let mut out = 0_i32;
        get(&mut context, &list, 4, 4, 1, 0, &mut out);
    }
    assert!(context.take_error().is_none());
    assert_eq!(context.memory_stats().used_bytes, used_before);
}

#[test]
fn list_remove_at_shifts_later_elements_left() {
    let mut context = new_context();
    let mut list = aster_rt_list_new(Some(&mut context), 4, 4, 1).unwrap();
    for value in [10_i32, 20, 30, 40] {
        add(&mut context, &mut list, 4, 4, 1, value);
    }
    remove_at(&mut context, &mut list, 4, 4, 1, 1);
    assert!(context.take_error().is_none());
    assert_eq!(length(&mut context, &list), 3);
    for (index, expected) in [(0_i32, 10_i32), (1, 30), (2, 40)] {
        let mut out = 0_i32;
        get(&mut context, &list, 4, 4, 1, index, &mut out);
        assert_eq!(out, expected, "Get({index}) after RemoveAt(1)");
    }
}

#[test]
fn list_remove_at_clears_the_old_last_slot() {
    let mut context = new_context();
    let mut list = aster_rt_list_new(Some(&mut context), 4, 4, 1).unwrap();
    for value in [10_i32, 20, 30] {
        add(&mut context, &mut list, 4, 4, 1, value);
    }
    remove_at(&mut context, &mut list, 4, 4, 1, 0);
    assert!(context.take_error().is_none());
    let old_last = list.data + 8;
    assert_eq!(read_i32(&context, old_last), 0, "old last slot must be zeroed");
}

#[test]
fn list_remove_at_does_not_change_capacity_or_data() {
    let mut context = new_context();
    let mut list = aster_rt_list_new(Some(&mut context), 4, 4, 1).unwrap();
    for value in [1_i32, 2, 3] {
        add(&mut context, &mut list, 4, 4, 1, value);
    }
    let (capacity_before, data_before) = (list.capacity(), list.data);
    remove_at(&mut context, &mut list, 4, 4, 1, 1);
    assert!(context.take_error().is_none());
    assert_eq!(list.capacity(), capacity_before);
    assert_eq!(list.data, data_before);
}

#[test]
fn list_remove_at_does_not_allocate() {
    let mut context = stats_context();
    let mut list = aster_rt_list_new(Some(&mut context), 4, 4, 1).unwrap();
    for value in [1_i32, 2, 3, 4] {
        add(&mut context, &mut list, 4, 4, 1, value);
    }
    let used_before = context.memory_stats().used_bytes;
    for _ in 0..1000 {
        remove_at(&mut context, &mut list, 4, 4, 1, 0);
        let value = 1_i32;
        add(&mut context, &mut list, 4, 4, 1, value);
    }
    assert!(context.take_error().is_none());
    assert_eq!(context.memory_stats().used_bytes, used_before);
}

#[test]
fn list_remove_at_and_add_reuse_the_same_buffer() {
    let mut context = new_context();
    let mut list = aster_rt_list_new(Some(&mut context), 4, 4, 1).unwrap();
    for value in [1_i32, 2, 3, 4] {
        add(&mut context, &mut list, 4, 4, 1, value);
    }
    let data_before = list.data;
    remove_at(&mut context, &mut list, 4, 4, 1, 0);
    let value = 99_i32;
    add(&mut context, &mut list, 4, 4, 1, value);
    assert!(context.take_error().is_none());
    assert_eq!(
        list.data,
        data_before,
        "buffer must be reused, not reallocated"
    );
    assert_eq!(list.capacity(), 4);
}

#[test]
fn list_remove_at_removing_every_element_leaves_a_valid_empty_list() {
    let mut context = new_context();
    let mut list = aster_rt_list_new(Some(&mut context), 4, 4, 1).unwrap();
    for value in [1_i32, 2, 3] {
        add(&mut context, &mut list, 4, 4, 1, value);
    }
    for _ in 0..3 {
        remove_at(&mut context, &mut list, 4, 4, 1, 0);
    }
    assert!(context.take_error().is_none());
    assert_eq!(length(&mut context, &list), 0);
    assert_eq!(list.capacity(), 4, "capacity is preserved, never shrunk");
    let value = 42_i32;
    add(&mut context, &mut list, 4, 4, 1, value);
    assert!(context.take_error().is_none());
    assert_eq!(length(&mut context, &list), 1);
}

#[test]
fn list_remove_at_rejects_a_null_list() {
    let mut context = new_context();
    aster_rt_list_remove_at(Some(&mut context), None, 4, 4, 1, 0);
    assert!(context.take_error().is_some());
}

#[test]
fn list_remove_at_rejects_element_size_mismatch() {
    let mut context = new_context();
    let mut list = aster_rt_list_new(Some(&mut context), 4, 4, 1).unwrap();
    let value = 1_i32;
    add(&mut context, &mut list, 4, 4, 1, value);
    remove_at(&mut context, &mut list, 8, 4, 1, 0);
    assert!(
        context
            .take_error()
            .is_some_and(|error| error.contains("size mismatch"))
    );
    assert_eq!(length(&mut context, &list), 1);
}

#[test]
fn list_remove_at_rejects_element_align_mismatch() {
    let mut context = new_context();
    let mut list = aster_rt_list_new(Some(&mut context), 4, 4, 1).unwrap();
    let value = 1_i32;
    add(&mut context, &mut list, 4, 4, 1, value);
    remove_at(&mut context, &mut list, 4, 8, 1, 0);
    assert!(
        context
            .take_error()
            .is_some_and(|error| error.contains("alignment mismatch"))
    );
}

#[test]
fn list_remove_at_rejects_element_type_key_mismatch() {
    let mut context = new_context();
    let mut list = aster_rt_list_new(Some(&mut context), 4, 4, 1).unwrap();
    let value = 1_i32;
    add(&mut context, &mut list, 4, 4, 1, value);
    remove_at(&mut context, &mut list, 4, 4, 2, 0);
    assert!(
        context
            .take_error()
            .is_some_and(|error| error.contains("type key mismatch"))
    );
}

#[test]
fn list_remove_at_rejects_a_negative_index() {
    let mut context = new_context();
    let mut list = aster_rt_list_new(Some(&mut context), 4, 4, 1).unwrap();
    let value = 1_i32;
    add(&mut context, &mut list, 4, 4, 1, value);
    remove_at(&mut context, &mut list, 4, 4, 1, -1);
    assert!(
        context
            .take_error()
            .is_some_and(|error| error.contains("negative"))
    );
    assert_eq!(length(&mut context, &list), 1);
}

#[test]
fn list_remove_at_rejects_an_index_on_an_empty_list() {
    let mut context = new_context();
    let mut list = aster_rt_list_new(Some(&mut context), 4, 4, 1).unwrap();
    remove_at(&mut context, &mut list, 4, 4, 1, 0);
    assert!(
        context
            .take_error()
            .is_some_and(|error| error.contains("out of bounds"))
    );
}

#[test]
fn list_remove_at_rejects_an_index_equal_to_length() {
    let mut context = new_context();
    let mut list = aster_rt_list_new(Some(&mut context), 4, 4, 1).unwrap();
    let value = 1_i32;
    add(&mut context, &mut list, 4, 4, 1, value);
    remove_at(&mut context, &mut list, 4, 4, 1, 1);
    assert!(
        context
            .take_error()
            .is_some_and(|error| error.contains("out of bounds"))
    );
    assert_eq!(length(&mut context, &list), 1);
}

#[test]
fn list_remove_at_rejects_an_index_far_beyond_length() {
    let mut context = new_context();
    let mut list = aster_rt_list_new(Some(&mut context), 4, 4, 1).unwrap();
    let value = 1_i32;
    add(&mut context, &mut list, 4, 4, 1, value);
    remove_at(&mut context, &mut list, 4, 4, 1, 1000);
    assert!(
        context
            .take_error()
            .is_some_and(|error| error.contains("out of bounds"))
    );
}

#[test]
fn list_remove_at_rejects_a_header_with_negative_length() {
    let mut context = new_context();
    let mut list = aster_rt_list_new(Some(&mut context), 4, 4, 1).unwrap();
    list.length = -1;
    remove_at(&mut context, &mut list, 4, 4, 1, 0);
    assert!(
        context
            .take_error()
            .is_some_and(|error| error.contains("negative length"))
    );
}

#[test]
fn list_remove_at_error_leaves_the_buffer_byte_for_byte_unchanged() {
    let mut context = new_context();
    let mut list = aster_rt_list_new(Some(&mut context), 4, 4, 1).unwrap();
    for value in [10_i32, 20, 30] {
        add(&mut context, &mut list, 4, 4, 1, value);
    }
    let snapshot = [
        read_i32(&context, list.data),
        read_i32(&context, list.data + 4),
        read_i32(&context, list.data + 8),
    ];
    remove_at(&mut context, &mut list, 4, 4, 1, 50);
    assert!(context.take_error().is_some());
    assert_eq!(length(&mut context, &list), 3);
    assert_eq!(
        [
            read_i32(&context, list.data),
            read_i32(&context, list.data + 4),
            read_i32(&context, list.data + 8),
        ],
        snapshot
    );
}

#[test]
fn list_remove_at_error_does_not_contaminate_a_later_valid_call() {
    let mut context = new_context();
    let mut list = aster_rt_list_new(Some(&mut context), 4, 4, 1).unwrap();
    for value in [10_i32, 20] {
        add(&mut context, &mut list, 4, 4, 1, value);
    }
    remove_at(&mut context, &mut list, 4, 4, 1, 5);
    assert!(context.take_error().is_some());
    remove_at(&mut context, &mut list, 4, 4, 1, 0);
    assert!(context.take_error().is_none());
    assert_eq!(length(&mut context, &list), 1);
    let mut out = 0_i32;
    get(&mut context, &list, 4, 4, 1, 0, &mut out);
    assert_eq!(out, 20);
}

fn next_deterministic(seed: &mut u32) -> u32 {
    *seed = seed.wrapping_mul(1_103_515_245).wrapping_add(12_345);
    *seed >> 16
}

#[test]
fn list_matches_a_reference_vec_model_over_a_deterministic_operation_sequence() {
    let mut context = new_context();
    let mut list = aster_rt_list_new(Some(&mut context), 4, 4, 1).unwrap();
    let mut model: Vec<i32> = Vec::new();
    let mut seed = 0xC0FF_EE42_u32;

    let assert_matches_model =
        |context: &mut ExecutionContext, list: &AsterList, model: &[i32]| {
            assert_eq!(length(context, list), i32::try_from(model.len()).unwrap());
            for (index, &expected) in model.iter().enumerate() {
                let mut out = 0_i32;
                get(context, list, 4, 4, 1, i32::try_from(index).unwrap(), &mut out);
                assert_eq!(out, expected, "mismatch at index {index}: {model:?}");
            }
        };

    for step in 0_i32..300 {
        match next_deterministic(&mut seed) % 5 {
            0 | 1 => {
                let value = step * 7 + 3;
                add(&mut context, &mut list, 4, 4, 1, value);
                assert!(context.take_error().is_none());
                model.push(value);
            }
            2 if !model.is_empty() => {
                let index = (next_deterministic(&mut seed) as usize) % model.len();
                let mut out = 0_i32;
                get(&mut context, &list, 4, 4, 1, i32::try_from(index).unwrap(), &mut out);
                assert!(context.take_error().is_none());
                assert_eq!(out, model[index]);
            }
            3 if !model.is_empty() => {
                let index = (next_deterministic(&mut seed) as usize) % model.len();
                remove_at(&mut context, &mut list, 4, 4, 1, i32::try_from(index).unwrap());
                assert!(context.take_error().is_none());
                model.remove(index);
            }
            _ => {
                let length_before = length(&mut context, &list);
                let bad_index = length_before + 1;
                let mut out = -1_i32;
                get(&mut context, &list, 4, 4, 1, bad_index, &mut out);
                assert!(context.take_error().is_some());
                remove_at(&mut context, &mut list, 4, 4, 1, bad_index);
                assert!(context.take_error().is_some());
                assert_eq!(length(&mut context, &list), length_before);
            }
        }
        assert_matches_model(&mut context, &list, &model);
    }

    assert!(
        model.len() > 30,
        "the deterministic sequence should have exercised substantial growth, got {}",
        model.len()
    );
}

#[test]
fn a_list_error_in_one_context_does_not_contaminate_an_independent_context() {
    let mut first = new_context();
    let mut first_list = aster_rt_list_new(Some(&mut first), 4, 4, 1).unwrap();
    remove_at(&mut first, &mut first_list, 4, 4, 1, 0);
    assert!(first.take_error().is_some());

    let mut second = new_context();
    let mut second_list = aster_rt_list_new(Some(&mut second), 4, 4, 1).unwrap();
    let value = 99_i32;
    add(&mut second, &mut second_list, 4, 4, 1, value);
    assert!(second.take_error().is_none());
    assert_eq!(length(&mut second, &second_list), 1);
}

#[test]
fn a_temporary_list_scope_reclaims_every_generation_of_its_buffer_on_reset() {
    let mut context = stats_context();
    let baseline_used = context.memory_stats().used_bytes;

    for _cycle in 0..5 {
        context.enter_temporary_scope();
        let mut list = aster_rt_list_new_temporary(Some(&mut context), 4, 4, 1).unwrap();
            for value in 0_i32..40 {
            add(&mut context, &mut list, 4, 4, 1, value);
        }
        assert!(context.take_error().is_none());
        for index in 0_i32..40 {
            let mut out = 0_i32;
            get(&mut context, &list, 4, 4, 1, index, &mut out);
        }
        for _ in 0_i32..40 {
            remove_at(&mut context, &mut list, 4, 4, 1, 0);
        }
        assert_eq!(length(&mut context, &list), 0);
        assert!(
            context.memory_stats().used_bytes > baseline_used,
            "the scope should be using more memory than baseline while active"
        );
        context.leave_temporary_scope();
        assert!(context.take_error().is_none());
        assert_eq!(
            context.memory_stats().used_bytes,
            baseline_used,
            "leaving the scope must reclaim the header and every growth generation, \
             not just the final buffer"
        );
    }
}

#[test]
fn every_change_of_a_list_changes_its_version() {
    let mut context = new_context();
    let mut list = aster_rt_list_new(Some(&mut context), 4, 4, 1).unwrap();
    let start = aster_rt_list_version(Some(&mut context), Some(&list));
    add(&mut context, &mut list, 4, 4, 1, 5);
    let added = aster_rt_list_version(Some(&mut context), Some(&list));
    assert_ne!(start, added);
    let mut out = 0;
    get(&mut context, &list, 4, 4, 1, 0, &mut out);
    assert_eq!(aster_rt_list_version(Some(&mut context), Some(&list)), added);
    remove_at(&mut context, &mut list, 4, 4, 1, 0);
    assert_ne!(aster_rt_list_version(Some(&mut context), Some(&list)), added);
    aster_rt_list_version_mismatch(Some(&mut context));
    assert_eq!(
        context.take_error().as_deref(),
        Some("list was structurally modified during foreach iteration")
    );
}

#[test]
fn removing_the_last_element_undoes_its_addition() {
    let mut context = new_context();
    let mut list = aster_rt_list_new(Some(&mut context), 4, 4, 1).unwrap();
    for value in [1, 2, 3] {
        add(&mut context, &mut list, 4, 4, 1, value);
    }
    let before = context.read_memory(list.data, 16).unwrap();
    add(&mut context, &mut list, 4, 4, 1, 4);
    remove_at(&mut context, &mut list, 4, 4, 1, 3);
    assert_eq!(length(&mut context, &list), 3);
    assert_eq!(context.read_memory(list.data, 16).unwrap(), before);
}

#[test]
fn capacity_doubles_from_four_and_the_type_stays() {
    let mut context = stats_context();
    let mut list = aster_rt_list_new(Some(&mut context), 4, 4, 7).unwrap();
    let start = list;
    let mut capacities = vec![list.capacity];
    for value in 0..17 {
        add(&mut context, &mut list, 4, 4, 7, value);
        capacities.push(list.capacity);
    }
    for _ in 0..17 {
        remove_at(&mut context, &mut list, 4, 4, 7, 0);
        capacities.push(list.capacity);
    }
    assert!(capacities.windows(2).all(|pair| pair[0] <= pair[1]));
    capacities.dedup();
    assert_eq!(capacities, [0, 4, 8, 16, 32]);
    assert_eq!(list.address, start.address);
    assert_eq!(list.element_size, start.element_size);
    assert_eq!(list.element_align, start.element_align);
    assert_eq!(list.element_type_key, start.element_type_key);
    assert!(list.region == start.region);
    assert!(context.take_error().is_none());
}

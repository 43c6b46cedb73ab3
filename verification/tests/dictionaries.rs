use std::collections::BTreeMap;

use aster_runtime::context::{ContextIdentity, ExecutionContext, HostDevices};
use aster_runtime::io::MemoryConsoleBackend;
use aster_runtime::memory_files::MemoryFileSystemBackend;
use aster_runtime::dictionary::{
    dictionary_entry_layout, AsterDictionary, DictionaryEntryLayout, DICTIONARY_MAX_ACTIVE_BYTES,
    DICTIONARY_MAX_ENTRIES,
};
use aster_runtime::dictionary_abi::{
    aster_rt_dictionary_add, aster_rt_dictionary_contains_key, aster_rt_dictionary_entries,
    aster_rt_dictionary_length, aster_rt_dictionary_new, aster_rt_dictionary_remove,
    aster_rt_dictionary_set, aster_rt_dictionary_try_get,
};
use aster_runtime::dictionary_table::DictionaryKeyKind;
use aster_runtime::list::ListRegion;
use aster_runtime::siphash::siphash13;

fn seeded(k0: u64, k1: u64, owner: u64) -> ContextIdentity {
    ContextIdentity {
        persistent_arena_id: 1,
        temporary_arena_id: 2,
        dictionary_hash_k0: k0,
        dictionary_hash_k1: k1,
        dictionary_owner_id: owner,
    }
}

fn devices() -> HostDevices {
    HostDevices {
        console: Box::new(MemoryConsoleBackend::default()),
        filesystem: Box::new(MemoryFileSystemBackend::new()),
    }
}

fn new_context() -> ExecutionContext {
    ExecutionContext::new(seeded(3, 4, 5), devices())
}

fn stats_context() -> ExecutionContext {
    ExecutionContext::with_stats(seeded(3, 4, 5), devices())
}

fn int_dictionary(context: &mut ExecutionContext, region: ListRegion) -> AsterDictionary {
    context
        .allocate_dictionary_in_region(DictionaryKeyKind::Int, 4, 4, 1, 4, 4, 2, region)
        .unwrap()
}

fn put(
    context: &mut ExecutionContext,
    dictionary: &mut AsterDictionary,
    key: i32,
    value: i32,
    replace: bool,
) -> i8 {
    context.dictionary_add_or_set(
        Some(dictionary),
        DictionaryKeyKind::Int,
        4,
        4,
        1,
        4,
        4,
        2,
        Some(&key.to_le_bytes()),
        Some(&value.to_le_bytes()),
        replace,
    )
}

fn find(
    context: &mut ExecutionContext,
    dictionary: &mut AsterDictionary,
    key: i32,
    remove: bool,
) -> i8 {
    context.dictionary_contains_or_remove(
        Some(dictionary),
        DictionaryKeyKind::Int,
        4,
        4,
        1,
        4,
        4,
        2,
        Some(&key.to_le_bytes()),
        remove,
    )
}

fn try_get(
    context: &mut ExecutionContext,
    dictionary: &AsterDictionary,
    key: i32,
) -> Option<i32> {
    let mut option = vec![0_u8; 8];
    context.dictionary_try_get(
        Some(dictionary),
        DictionaryKeyKind::Int,
        4,
        4,
        1,
        4,
        4,
        2,
        Some(&key.to_le_bytes()),
        Some(&mut option),
        8,
        1,
        0,
        4,
    );
    if u32::from_le_bytes(option[..4].try_into().expect("tag")) == 1 {
        Some(i32::from_le_bytes(option[4..].try_into().expect("payload")))
    } else {
        None
    }
}

fn length(context: &mut ExecutionContext, dictionary: &AsterDictionary) -> i32 {
    aster_rt_dictionary_length(Some(context), Some(dictionary))
}

/// The bytes of the keys and values that are live, in the order of the entries.
fn live_entries(
    context: &ExecutionContext,
    dictionary: &AsterDictionary,
) -> Vec<(Vec<u8>, i32)> {
    let layout = dictionary_entry_layout(
        dictionary.key_size,
        dictionary.key_align,
        dictionary.value_size,
        dictionary.value_align,
    )
    .expect("entry layout");
    (0..dictionary.entry_count as usize)
        .map(|index| {
            let start = dictionary.entries + (index * layout.stride) as u64;
            context.read_memory(start, layout.stride).unwrap()
        })
        .filter(|entry| entry[12] == 1)
        .map(|entry| {
            let key = entry[layout.key_offset..][..dictionary.key_size as usize].to_vec();
            let value = entry[layout.value_offset..][..4].try_into().unwrap();
            (key, i32::from_le_bytes(value))
        })
        .collect()
}

fn live_int_entries(context: &ExecutionContext, dictionary: &AsterDictionary) -> Vec<(i32, i32)> {
    live_entries(context, dictionary)
        .into_iter()
        .map(|(key, value)| (i32::from_le_bytes(key.try_into().unwrap()), value))
        .collect()
}

fn live_string_entries(
    context: &ExecutionContext,
    dictionary: &AsterDictionary,
) -> Vec<(String, i32)> {
    live_entries(context, dictionary)
        .into_iter()
        .map(|(key, value)| {
            let address = u64::from_le_bytes(key.try_into().unwrap());
            let text = context.read_string(address).expect("valid stored string");
            (String::from_utf8(text).unwrap(), value)
        })
        .collect()
}

#[test]
fn empty_dictionary_header_is_valid_and_allocates_no_buffers() {
    let mut context = new_context();
    let dictionary = context
        .allocate_dictionary_in_region(
            DictionaryKeyKind::Long,
            8,
            8,
            1,
            4,
            4,
            2,
            ListRegion::Persistent,
        )
        .unwrap();
    assert_eq!(length(&mut context, &dictionary), 0);
    assert_eq!(dictionary.bucket_capacity, 0);
    assert_eq!(dictionary.entry_capacity, 0);
    assert_eq!(dictionary.entry_count, 0);
    assert_eq!(dictionary.region(), ListRegion::Persistent);
    assert!(context.take_error().is_none());
}

#[test]
fn dictionary_rejects_invalid_layout_without_publishing_a_header() {
    let mut context = new_context();
    assert!(context
        .allocate_dictionary_in_region(
            DictionaryKeyKind::Int,
            4,
            3,
            1,
            4,
            4,
            2,
            ListRegion::Persistent,
        )
        .is_none());
    assert!(context.take_error().is_some());
}

#[test]
fn dictionary_failures_are_first_error_wins_and_context_local() {
    let mut failing = new_context();
    assert!(failing
        .allocate_dictionary_in_region(
            DictionaryKeyKind::Int,
            4,
            3,
            1,
            4,
            4,
            2,
            ListRegion::Persistent,
        )
        .is_none());
    let first = failing
        .take_error()
        .expect("invalid alignment records an error");
    failing.fail(first.clone());
    assert!(failing
        .allocate_dictionary_in_region(
            DictionaryKeyKind::Int,
            0,
            4,
            1,
            4,
            4,
            2,
            ListRegion::Persistent,
        )
        .is_none());
    assert_eq!(failing.take_error(), Some(first));

    let mut independent = new_context();
    let dictionary = independent
        .allocate_dictionary_in_region(
            DictionaryKeyKind::Int,
            4,
            4,
            1,
            8,
            8,
            2,
            ListRegion::Persistent,
        )
        .unwrap();
    assert_eq!(length(&mut independent, &dictionary), 0);
    assert!(independent.take_error().is_none());
}

#[test]
fn dictionary_owner_and_corrupted_chain_fail_without_cross_context_contamination() {
    let mut owner = ExecutionContext::new(seeded(3, 4, 5), devices());
    let mut dictionary = int_dictionary(&mut owner, ListRegion::Persistent);
    let key = 7_i32;
    let value = 42_i32;
    assert_eq!(put(&mut owner, &mut dictionary, key, value, false), 1);

    let mut wrong_context = ExecutionContext::new(seeded(3, 4, 6), devices());
    assert_eq!(length(&mut wrong_context, &dictionary), 0);
    let ownership_error = wrong_context.take_error().expect("ownership error");
    assert!(
        ownership_error.contains("ExecutionContext"),
        "{ownership_error}"
    );
    assert_eq!(length(&mut owner, &dictionary), 1);
    assert!(owner.take_error().is_none());

    let hash = owner
        .dictionary_hash_key(
            DictionaryKeyKind::Int,
            Some(&key.to_le_bytes()),
            4,
            "test",
        )
        .expect("hash");
    let bucket = hash & (u64::try_from(dictionary.bucket_capacity).expect("capacity") - 1);
    let broken = u32::try_from(dictionary.entry_count).expect("entry count");
    assert!(owner.write_memory(dictionary.buckets + 4 * bucket, &broken.to_le_bytes()));
    assert_eq!(find(&mut owner, &mut dictionary, key, false), 0);
    let chain_error = owner.take_error().expect("chain error");
    assert!(
        chain_error.contains("invalid") || chain_error.contains("cyclic"),
        "{chain_error}"
    );

    let mut independent = new_context();
    let valid = int_dictionary(&mut independent, ListRegion::Persistent);
    assert_eq!(length(&mut independent, &valid), 0);
    assert!(independent.take_error().is_none());
}

#[test]
fn dictionary_first_error_prevents_later_publication_or_replacement() {
    let mut context = new_context();
    context.fail_with("first dictionary failure");
    let dictionary = context.allocate_dictionary_in_region(
        DictionaryKeyKind::Int,
        4,
        4,
        1,
        4,
        4,
        2,
        ListRegion::Persistent,
    );
    assert!(dictionary.is_none());
    context.fail_with("later dictionary failure");
    assert_eq!(
        context.take_error().as_deref(),
        Some("first dictionary failure")
    );
}

#[test]
fn siphash13_matches_reference_vectors() {
    let key0 = 0x0706_0504_0302_0100;
    let key1 = 0x0f0e_0d0c_0b0a_0908;
    let input = (0_u8..64).collect::<Vec<_>>();
    let expected = [
        0xabac_0158_050f_c4dc,
        0xc9f4_9bf3_7d57_ca93,
        0x82cb_9b02_4dc7_d44d,
        0x8bf8_0ab8_e7dd_f7fb,
        0xcf75_5760_88d3_8328,
    ];
    for (length, expected) in expected.into_iter().enumerate() {
        assert_eq!(siphash13(key0, key1, &input[..length]), expected);
    }
}

#[test]
fn dictionary_hashes_every_key_kind_from_its_canonical_bytes() {
    let (k0, k1) = (0x0706_0504_0302_0100, 0x0f0e_0d0c_0b0a_0908);
    let mut context = ExecutionContext::new(seeded(k0, k1, 5), devices());
    let checks: [(DictionaryKeyKind, Vec<u8>); 10] = [
        (DictionaryKeyKind::Bool, vec![1_u8]),
        (
            DictionaryKeyKind::Char,
            u32::from('\u{1f642}').to_le_bytes().to_vec(),
        ),
        (DictionaryKeyKind::SByte, i8::MIN.to_le_bytes().to_vec()),
        (DictionaryKeyKind::Byte, u8::MAX.to_le_bytes().to_vec()),
        (DictionaryKeyKind::Short, i16::MIN.to_le_bytes().to_vec()),
        (DictionaryKeyKind::UShort, u16::MAX.to_le_bytes().to_vec()),
        (DictionaryKeyKind::Int, i32::MIN.to_le_bytes().to_vec()),
        (DictionaryKeyKind::UInt, u32::MAX.to_le_bytes().to_vec()),
        (DictionaryKeyKind::Long, i64::MIN.to_le_bytes().to_vec()),
        (DictionaryKeyKind::ULong, u64::MAX.to_le_bytes().to_vec()),
    ];
    for (kind, bytes) in checks {
        assert_eq!(
            context
                .dictionary_hash_key(
                    kind,
                    Some(&bytes),
                    u32::try_from(bytes.len()).expect("key size"),
                    "test",
                )
                .expect("hash"),
            siphash13(k0, k1, &bytes)
        );
    }

    let string = context
        .allocate_string_parts(&["a\0\u{00e9}".as_bytes()])
        .unwrap();
    assert_eq!(
        context
            .dictionary_hash_key(
                DictionaryKeyKind::String,
                Some(&string.to_le_bytes()),
                8,
                "test",
            )
            .expect("string hash"),
        siphash13(k0, k1, "a\0\u{00e9}".as_bytes())
    );
    assert!(context.take_error().is_none());
}

fn built_with(k0: u64, k1: u64) -> Vec<(i32, i32)> {
    let mut context = ExecutionContext::new(seeded(k0, k1, 5), devices());
    let mut dictionary = int_dictionary(&mut context, ListRegion::Persistent);
    for key in [9_i32, 1, 7, 3, 5] {
        let value = key * 10;
        assert_eq!(put(&mut context, &mut dictionary, key, value, false), 1);
    }
    live_int_entries(&context, &dictionary)
}

#[test]
fn dictionary_public_order_does_not_depend_on_context_seed() {
    assert_eq!(built_with(1, 2), built_with(0xfeed, 0xbeef));
}

#[test]
fn dictionary_collision_chain_supports_head_middle_and_tail_removal() {
    let mut context = ExecutionContext::new(seeded(1, 2, 5), devices());
    let mut colliding = Vec::new();
    for candidate in 0_i32..10_000 {
        let hash = context
            .dictionary_hash_key(
                DictionaryKeyKind::Int,
                Some(&candidate.to_le_bytes()),
                4,
                "test",
            )
            .expect("hash");
        if hash.trailing_zeros() >= 3 {
            colliding.push(candidate);
            if colliding.len() == 4 {
                break;
            }
        }
    }
    assert_eq!(colliding.len(), 4);
    let mut dictionary = int_dictionary(&mut context, ListRegion::Persistent);
    for key in &colliding {
        assert_eq!(put(&mut context, &mut dictionary, *key, *key, false), 1);
    }
    for index in [3_usize, 1, 0] {
        let key = colliding[index];
        assert_eq!(find(&mut context, &mut dictionary, key, true), 1);
    }
    let remaining = colliding[2];
    assert_eq!(find(&mut context, &mut dictionary, remaining, false), 1);
    assert_eq!(
        live_int_entries(&context, &dictionary),
        vec![(remaining, remaining)]
    );
    assert!(context.take_error().is_none());
}

#[test]
fn dictionary_growth_tombstones_and_snapshot_preserve_insertion_order() {
    let mut context =
        ExecutionContext::with_stats(seeded(0x0706_0504_0302_0100, 0x0f0e_0d0c_0b0a_0908, 5), devices());
    let mut dictionary = int_dictionary(&mut context, ListRegion::Persistent);
    for key in 0_i32..1_000 {
        assert_eq!(put(&mut context, &mut dictionary, key, key * 2, false), 1);
    }
    for key in (0_i32..1_000).step_by(2) {
        assert_eq!(find(&mut context, &mut dictionary, key, true), 1);
    }
    for key in (0_i32..1_000).step_by(2) {
        assert_eq!(put(&mut context, &mut dictionary, key, key * 3, false), 1);
    }
    let before_snapshot = *context.memory_stats();
    let snapshot = context
        .dictionary_entries(
            Some(&dictionary),
            DictionaryKeyKind::Int,
            4,
            4,
            1,
            4,
            4,
            2,
            8,
            0,
            4,
            ListRegion::Persistent,
        )
        .unwrap();
    assert_eq!(
        context.memory_stats().total_allocations - before_snapshot.total_allocations,
        1
    );
    assert_eq!(
        context.memory_stats().array_allocations - before_snapshot.array_allocations,
        1
    );
    assert_eq!(
        context.memory_stats().string_allocations,
        before_snapshot.string_allocations
    );
    assert_eq!(snapshot.length, 1_000);
    let pairs: Vec<i32> = context
        .read_memory(snapshot.data, 8_000)
        .unwrap()
        .chunks(4)
        .map(|bytes| i32::from_le_bytes(bytes.try_into().unwrap()))
        .collect();
    assert_eq!(&pairs[..4], &[1, 2, 3, 6]);
    assert_eq!(&pairs[998..1002], &[999, 1998, 0, 0]);
    assert_eq!(&pairs[1998..], &[998, 2994]);
    assert_eq!(dictionary.bucket_capacity.count_ones(), 1);
    assert_eq!(dictionary.length, 1_000);
    assert!(context.take_error().is_none());
}

#[test]
fn dictionary_read_operations_and_duplicates_do_not_allocate() {
    let mut context = stats_context();
    let mut dictionary = int_dictionary(&mut context, ListRegion::Persistent);
    let key = 7_i32;
    let value = 42_i32;
    assert_eq!(put(&mut context, &mut dictionary, key, value, false), 1);
    let before = *context.memory_stats();
    for _ in 0..1_000 {
        assert_eq!(length(&mut context, &dictionary), 1);
        assert_eq!(find(&mut context, &mut dictionary, key, false), 1);
        assert_eq!(put(&mut context, &mut dictionary, key, value, false), 0);
        assert_eq!(try_get(&mut context, &dictionary, key), Some(42));
    }
    assert_eq!(context.memory_stats(), &before);
    assert!(context.take_error().is_none());
}

#[test]
fn dictionary_differential_int_model_matches_every_operation_and_order() {
    let mut context =
        ExecutionContext::with_stats(seeded(0x0706_0504_0302_0100, 0x0f0e_0d0c_0b0a_0908, 5), devices());
    let mut dictionary = int_dictionary(&mut context, ListRegion::Persistent);
    let mut values = BTreeMap::<i32, i32>::new();
    let mut order = Vec::<i32>::new();
    let mut state = 0x4d34_2d69_6e74_u64;
    for step in 0_i32..5_000 {
        state ^= state << 13;
        state ^= state >> 7;
        state ^= state << 17;
        let key = i32::try_from(state % 97).expect("small key") - 48;
        let value = step.wrapping_mul(31).wrapping_add(key);
        match (state >> 32) % 6 {
            0 => {
                let expected = !values.contains_key(&key);
                let actual = put(&mut context, &mut dictionary, key, value, false) != 0;
                assert_eq!(actual, expected);
                if expected {
                    values.insert(key, value);
                    order.push(key);
                }
            }
            1 => {
                let expected = values.contains_key(&key);
                let actual = put(&mut context, &mut dictionary, key, value, true) != 0;
                assert_eq!(actual, expected);
                if !expected {
                    order.push(key);
                }
                values.insert(key, value);
            }
            2 => {
                let actual = find(&mut context, &mut dictionary, key, false) != 0;
                assert_eq!(actual, values.contains_key(&key));
            }
            3 => {
                let expected = values.remove(&key).is_some();
                let actual = find(&mut context, &mut dictionary, key, true) != 0;
                assert_eq!(actual, expected);
                if expected {
                    order.retain(|existing| *existing != key);
                }
            }
            4 => {
                let actual = try_get(&mut context, &dictionary, key);
                assert_eq!(actual, values.get(&key).copied());
            }
            _ => {}
        }
        let expected = order
            .iter()
            .map(|key| (*key, values[key]))
            .collect::<Vec<_>>();
        assert_eq!(live_int_entries(&context, &dictionary), expected);
        assert_eq!(
            dictionary.length,
            i32::try_from(values.len()).expect("small model")
        );
    }
    assert!(context.take_error().is_none());
}

#[test]
fn dictionary_differential_string_model_is_ordinal_and_ordered() {
    let mut context = ExecutionContext::with_stats(seeded(7, 11, 5), devices());
    let keys = [
        "",
        "A",
        "a",
        "\u{00e9}",
        "e\u{0301}",
        "a\0b",
        "\u{03b2}",
        "\u{1f642}",
        "word-0",
        "word-1",
        "word-2",
        "word-3",
        "word-4",
    ];
    let pointers = keys
        .iter()
        .map(|key| context.allocate_string_parts(&[key.as_bytes()]).unwrap())
        .collect::<Vec<_>>();
    let mut dictionary = context
        .allocate_dictionary_in_region(
            DictionaryKeyKind::String,
            8,
            8,
            3,
            4,
            4,
            4,
            ListRegion::Persistent,
        )
        .unwrap();
    let mut values = BTreeMap::<String, i32>::new();
    let mut order = Vec::<String>::new();
    let mut state = 0x4d34_2d73_7472_u64;
    for step in 0_i32..2_000 {
        state = state
            .wrapping_mul(6_364_136_223_846_793_005)
            .wrapping_add(1_442_695_040_888_963_407);
        let key_index = usize::try_from(state % keys.len() as u64).expect("key index");
        let key = keys[key_index];
        let slot = pointers[key_index].to_le_bytes();
        let value = step.wrapping_mul(17);
        match (state >> 29) % 6 {
            choice @ (0 | 1) => {
                let replace = choice == 1;
                let present = values.contains_key(key);
                let actual = context.dictionary_add_or_set(
                    Some(&mut dictionary),
                    DictionaryKeyKind::String,
                    8,
                    8,
                    3,
                    4,
                    4,
                    4,
                    Some(&slot),
                    Some(&value.to_le_bytes()),
                    replace,
                ) != 0;
                assert_eq!(actual, if replace { present } else { !present });
                if !present {
                    order.push(key.to_owned());
                }
                if replace || !present {
                    values.insert(key.to_owned(), value);
                }
            }
            choice @ (2 | 3) => {
                let remove = choice == 3;
                let present = values.contains_key(key);
                let actual = context.dictionary_contains_or_remove(
                    Some(&mut dictionary),
                    DictionaryKeyKind::String,
                    8,
                    8,
                    3,
                    4,
                    4,
                    4,
                    Some(&slot),
                    remove,
                ) != 0;
                assert_eq!(actual, present);
                if remove && present {
                    values.remove(key);
                    order.retain(|existing| existing != key);
                }
            }
            4 => {
                let mut option = vec![0_u8; 8];
                context.dictionary_try_get(
                    Some(&dictionary),
                    DictionaryKeyKind::String,
                    8,
                    8,
                    3,
                    4,
                    4,
                    4,
                    Some(&slot),
                    Some(&mut option),
                    8,
                    1,
                    0,
                    4,
                );
                let actual = if u32::from_le_bytes(option[..4].try_into().expect("tag")) == 1 {
                    Some(i32::from_le_bytes(option[4..].try_into().expect("payload")))
                } else {
                    None
                };
                assert_eq!(actual, values.get(key).copied());
            }
            _ => {}
        }
        let expected = order
            .iter()
            .map(|key| (key.clone(), values[key]))
            .collect::<Vec<_>>();
        assert_eq!(live_string_entries(&context, &dictionary), expected);
    }
    assert!(context.take_error().is_none());
}

#[test]
fn dictionary_limits_and_large_operation_phases_are_atomic() {
    let mut context = stats_context();
    let mut dictionary = int_dictionary(&mut context, ListRegion::Persistent);
    for key in 0_i32..DICTIONARY_MAX_ENTRIES {
        assert_eq!(put(&mut context, &mut dictionary, key, key, false), 1);
    }
    for key in 0_i32..DICTIONARY_MAX_ENTRIES {
        assert_eq!(find(&mut context, &mut dictionary, key, false), 1);
    }
    for key in (0_i32..DICTIONARY_MAX_ENTRIES).step_by(2) {
        assert_eq!(find(&mut context, &mut dictionary, key, true), 1);
    }
    for key in (0_i32..DICTIONARY_MAX_ENTRIES).step_by(2) {
        assert_eq!(put(&mut context, &mut dictionary, key, key, false), 1);
    }
    let extra = DICTIONARY_MAX_ENTRIES;
    assert_eq!(put(&mut context, &mut dictionary, extra, extra, false), 0);
    assert_eq!(dictionary.length, DICTIONARY_MAX_ENTRIES);
    let error = context.take_error().expect("limit failure");
    assert!(error.contains("100000"), "{error}");
}

#[test]
fn dictionary_active_byte_limit_fails_before_publishing_buffers() {
    let mut context = stats_context();
    let value_size = 8 * 1024 * 1024;
    let mut dictionary = context
        .allocate_dictionary_in_region(
            DictionaryKeyKind::Int,
            4,
            4,
            1,
            value_size,
            1,
            2,
            ListRegion::Persistent,
        )
        .unwrap();
    let before = *context.memory_stats();
    let key = 1_i32;
    let value = vec![0_u8; usize::try_from(value_size).expect("value size")];
    assert_eq!(
        context.dictionary_add_or_set(
            Some(&mut dictionary),
            DictionaryKeyKind::Int,
            4,
            4,
            1,
            value_size,
            1,
            2,
            Some(&key.to_le_bytes()),
            Some(&value),
            false,
        ),
        0
    );
    assert_eq!(dictionary.length, 0);
    assert_eq!(dictionary.entry_count, 0);
    assert_eq!(dictionary.entry_capacity, 0);
    assert_eq!(dictionary.bucket_capacity, 0);
    assert_eq!(dictionary.entries, 0);
    assert_eq!(dictionary.buckets, 0);
    assert_eq!(context.memory_stats(), &before);
    let error = context.take_error().expect("active byte limit");
    assert!(error.contains("64 MiB"), "{error}");
}

#[test]
fn dictionary_active_byte_limit_accepts_exactly_64_mib_and_rejects_one_stride_more() {
    let layout = DictionaryEntryLayout {
        key_offset: 0,
        value_offset: 0,
        stride: 8,
        align: 8,
    };
    let mut exact = new_context();
    assert_eq!(
        exact.dictionary_active_bytes(0, 8 * 1024 * 1024, layout),
        Some((0, DICTIONARY_MAX_ACTIVE_BYTES))
    );
    assert!(exact.take_error().is_none());

    let mut over = new_context();
    assert!(over
        .dictionary_active_bytes(0, 8 * 1024 * 1024 + 1, layout)
        .is_none());
    assert!(over
        .take_error()
        .is_some_and(|error| error.contains("64 MiB")));
}

#[test]
fn dictionary_allocation_metrics_match_header_buffers_and_snapshot() {
    let mut context = stats_context();
    let initial = *context.memory_stats();
    let mut dictionary = int_dictionary(&mut context, ListRegion::Persistent);
    let after_header = *context.memory_stats();
    assert_eq!(
        after_header.total_allocations - initial.total_allocations,
        1
    );
    assert_eq!(
        after_header.object_allocations - initial.object_allocations,
        1
    );
    assert_eq!(after_header.string_allocations, 0);

    for _ in 0..1_000 {
        assert_eq!(length(&mut context, &dictionary), 0);
    }
    assert_eq!(context.memory_stats(), &after_header);

    let key = 1_i32;
    let value = 2_i32;
    assert_eq!(put(&mut context, &mut dictionary, key, value, false), 1);
    let after_first_insert = *context.memory_stats();
    assert_eq!(
        after_first_insert.total_allocations - after_header.total_allocations,
        2
    );
    assert_eq!(
        after_first_insert.object_allocations - after_header.object_allocations,
        2
    );
    assert_eq!(after_first_insert.string_allocations, 0);

    let second_key = 2_i32;
    let second_value = 3_i32;
    assert_eq!(
        put(&mut context, &mut dictionary, second_key, second_value, false),
        1
    );
    assert_eq!(
        put(&mut context, &mut dictionary, second_key, value, true),
        1
    );
    assert_eq!(find(&mut context, &mut dictionary, second_key, false), 1);
    assert_eq!(find(&mut context, &mut dictionary, second_key, true), 1);
    assert_eq!(context.memory_stats(), &after_first_insert);

    let snapshot = context.dictionary_entries(
        Some(&dictionary),
        DictionaryKeyKind::Int,
        4,
        4,
        1,
        4,
        4,
        2,
        8,
        0,
        4,
        ListRegion::Persistent,
    );
    assert!(snapshot.is_some());
    let after_snapshot = *context.memory_stats();
    assert_eq!(
        after_snapshot.total_allocations - after_first_insert.total_allocations,
        1
    );
    assert_eq!(
        after_snapshot.array_allocations - after_first_insert.array_allocations,
        1
    );
    assert_eq!(after_snapshot.string_allocations, 0);
    assert!(context.take_error().is_none());
}

#[test]
fn ten_thousand_empty_dictionaries_follow_arena_recovery_rules() {
    let mut temporary = stats_context();
    temporary.enter_temporary_scope();
    for _ in 0..10_000 {
        int_dictionary(&mut temporary, ListRegion::Temporary);
    }
    temporary.leave_temporary_scope();
    let temporary_after_rewind = *temporary.memory_stats();
    assert_eq!(temporary_after_rewind.used_bytes, 0);
    assert_eq!(temporary_after_rewind.object_allocations, 10_000);
    assert_eq!(temporary_after_rewind.string_allocations, 0);

    let mut persistent = stats_context();
    for _ in 0..10_000 {
        int_dictionary(&mut persistent, ListRegion::Persistent);
    }
    assert!(persistent.memory_stats().used_bytes > 0);
    assert_eq!(persistent.memory_stats().object_allocations, 10_000);
    assert_eq!(persistent.memory_stats().string_allocations, 0);
}

#[test]
fn generated_code_reaches_a_dictionary_through_numbers() {
    let mut context = new_context();
    let kind = (0..16)
        .find(|kind| DictionaryKeyKind::from_abi(*kind) == Some(DictionaryKeyKind::Int))
        .unwrap();
    let mut dictionary =
        aster_rt_dictionary_new(Some(&mut context), kind, 4, 4, 1, 4, 4, 2).unwrap();
    let key = 5_i32.to_le_bytes();
    let value = 6_i32.to_le_bytes();
    assert_eq!(
        aster_rt_dictionary_add(
            Some(&mut context),
            Some(&mut dictionary),
            kind,
            4,
            4,
            1,
            4,
            4,
            2,
            Some(&key),
            Some(&value),
        ),
        1
    );
    assert_eq!(
        aster_rt_dictionary_set(
            Some(&mut context),
            Some(&mut dictionary),
            kind,
            4,
            4,
            1,
            4,
            4,
            2,
            Some(&key),
            Some(&7_i32.to_le_bytes()),
        ),
        1
    );
    assert_eq!(
        aster_rt_dictionary_contains_key(
            Some(&mut context),
            Some(&mut dictionary),
            kind,
            4,
            4,
            1,
            4,
            4,
            2,
            Some(&key),
        ),
        1
    );
    let mut option = vec![0_u8; 8];
    aster_rt_dictionary_try_get(
        Some(&mut context),
        Some(&dictionary),
        kind,
        4,
        4,
        1,
        4,
        4,
        2,
        Some(&key),
        Some(&mut option),
        8,
        1,
        0,
        4,
    );
    assert_eq!(option, [1, 0, 0, 0, 7, 0, 0, 0]);
    let entries = aster_rt_dictionary_entries(
        Some(&mut context),
        Some(&dictionary),
        kind,
        4,
        4,
        1,
        4,
        4,
        2,
        8,
        0,
        4,
        0,
    )
    .unwrap();
    assert_eq!(
        context.read_memory(entries.data, 8).unwrap(),
        [5, 0, 0, 0, 7, 0, 0, 0]
    );
    assert_eq!(
        aster_rt_dictionary_remove(
            Some(&mut context),
            Some(&mut dictionary),
            kind,
            4,
            4,
            1,
            4,
            4,
            2,
            Some(&key),
        ),
        1
    );
    assert_eq!(length(&mut context, &dictionary), 0);
    assert!(context.take_error().is_none());
    assert!(aster_rt_dictionary_new(Some(&mut context), 99, 4, 4, 1, 4, 4, 2).is_none());
    assert!(context.take_error().is_some());
}

#[test]
fn the_same_calls_give_the_same_results_under_every_seed() {
    let mut outcomes = Vec::new();
    for (k0, k1) in [(1, 2), (0xdead_beef, 77)] {
        let mut context = ExecutionContext::new(seeded(k0, k1, 5), devices());
        let mut dictionary = int_dictionary(&mut context, ListRegion::Persistent);
        let mut results = Vec::new();
        for key in [5, 9, 5, 1, 12, 9] {
            results.push(put(&mut context, &mut dictionary, key, key * 10, false));
        }
        results.push(put(&mut context, &mut dictionary, 40, 1, true));
        results.push(put(&mut context, &mut dictionary, 9, 2, true));
        results.push(find(&mut context, &mut dictionary, 5, true));
        results.push(find(&mut context, &mut dictionary, 5, true));
        results.push(find(&mut context, &mut dictionary, 1, false));
        let got = try_get(&mut context, &dictionary, 9);
        outcomes.push((results, got, live_entries(&context, &dictionary)));
    }
    assert_eq!(outcomes[0], outcomes[1]);
    assert_eq!(outcomes[0].0, vec![1, 1, 0, 1, 1, 0, 0, 1, 1, 0, 1]);
    assert_eq!(outcomes[0].1, Some(2));
    let values: Vec<i32> = outcomes[0].2.iter().map(|entry| entry.1).collect();
    assert_eq!(values, vec![2, 10, 120, 1]);
}

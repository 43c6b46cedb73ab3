use aster_runtime::arena::MIN_PAGE_SIZE;
use aster_runtime::array::{aster_rt_array_element, aster_rt_array_length, AsterArray};
use aster_runtime::context::{ContextIdentity, ExecutionContext, HostDevices};
use aster_runtime::io::MemoryConsoleBackend;
use aster_runtime::memory_files::MemoryFileSystemBackend;
use aster_runtime::object::{aster_rt_temporary_scope_enter, aster_rt_temporary_scope_leave};
use aster_runtime::string::{
    aster_rt_string_byte_length, aster_rt_string_concat, aster_rt_string_contains,
    aster_rt_string_decode_next, aster_rt_string_ends_with, aster_rt_string_eq,
    aster_rt_string_from_bool, aster_rt_string_from_char, aster_rt_string_from_double,
    aster_rt_string_from_float, aster_rt_string_from_long, aster_rt_string_from_ulong,
    aster_rt_string_index_of, aster_rt_string_join, aster_rt_string_last_index_of,
    aster_rt_string_length, aster_rt_string_starts_with, decode_str, encode_str, view_str,
    AsterStrHeader,
};
use aster_runtime::string_edit::{
    aster_rt_string_concat_array, aster_rt_string_from_chars, aster_rt_string_join_array,
    aster_rt_string_repeat, aster_rt_string_replace, aster_rt_string_substring_from,
    aster_rt_string_substring_range, aster_rt_string_substring_range_temporary,
    aster_rt_string_to_chars, aster_rt_string_trim, aster_rt_string_trim_end,
    aster_rt_string_trim_start,
};
use aster_runtime::string_parse::{
    aster_rt_string_try_parse_bool, aster_rt_string_try_parse_byte, aster_rt_string_try_parse_char,
    aster_rt_string_try_parse_double, aster_rt_string_try_parse_float,
    aster_rt_string_try_parse_int, aster_rt_string_try_parse_long, aster_rt_string_try_parse_sbyte,
    aster_rt_string_try_parse_short, aster_rt_string_try_parse_uint,
    aster_rt_string_try_parse_ulong, aster_rt_string_try_parse_ushort, is_valid_float_grammar,
};
use aster_runtime::string_split::{aster_rt_string_split, aster_rt_string_split_temporary};

fn identity() -> ContextIdentity {
    ContextIdentity {
        persistent_arena_id: 1,
        temporary_arena_id: 2,
        dictionary_hash_k0: 3,
        dictionary_hash_k1: 4,
        dictionary_owner_id: 5,
    }
}

fn devices() -> HostDevices {
    HostDevices {
        console: Box::new(MemoryConsoleBackend::default()),
        filesystem: Box::new(MemoryFileSystemBackend::new()),
    }
}

fn new_context() -> ExecutionContext {
    ExecutionContext::new(identity(), devices())
}

fn limited_context() -> ExecutionContext {
    ExecutionContext::with_memory_limit(identity(), MIN_PAGE_SIZE, devices())
}

fn view(context: &ExecutionContext, address: Option<u64>) -> Option<String> {
    context
        .read_string(address?)
        .map(|bytes| String::from_utf8(bytes).unwrap())
}

fn array_strings(context: &mut ExecutionContext, array: &AsterArray) -> Vec<String> {
    let length = aster_rt_array_length(Some(context), Some(array));
    (0..length)
        .map(|index| {
            let slot = aster_rt_array_element(Some(context), Some(array), index).unwrap();
            let bytes = context.read_memory(slot, 8).unwrap();
            let address = u64::from_le_bytes(bytes.try_into().unwrap());
            view(context, Some(address)).expect("valid split string")
        })
        .collect()
}

/// A block with a length that fits and bytes that are no text.
fn invalid_block(text: &str) -> Vec<u8> {
    let mut block = encode_str(text);
    block[8] = 0xff;
    block
}

fn option_destination() -> Vec<u8> {
    vec![0_u8; 16]
}

fn number(destination: &[u8], at: usize) -> i32 {
    i32::from_le_bytes(destination[at..at + 4].try_into().unwrap())
}

/// The nearest `double` to what a text stands for.
fn double_bits(text: &str) -> Option<u64> {
    text.parse::<f64>().ok().map(f64::to_bits)
}

/// The nearest `float` to what a text stands for.
fn float_bits(text: &str) -> Option<u32> {
    text.parse::<f32>().ok().map(f32::to_bits)
}

fn from_float(context: &mut ExecutionContext, value: f32) -> String {
    let address = aster_rt_string_from_float(Some(context), format!("{value}").as_bytes());
    view(context, address).expect("valid utf8 string")
}

fn from_double(context: &mut ExecutionContext, value: f64) -> String {
    let address = aster_rt_string_from_double(Some(context), format!("{value}").as_bytes());
    view(context, address).expect("valid utf8 string")
}

#[test]
fn encodes_length_and_payload() {
    let encoded = encode_str("héllo");
    assert_eq!(encoded[..size_of::<usize>()], 6_usize.to_ne_bytes());
    assert_eq!(&encoded[size_of::<usize>()..], "héllo".as_bytes());
}

#[test]
fn views_utf8_payload() {
    let buffer = encode_str("Aster ✓");
    let text = view_str(Some(&buffer));
    assert_eq!(text, Some("Aster ✓".as_bytes()));
    assert_eq!(decode_str(Some(&buffer)).as_deref(), Some("Aster ✓"));
}

#[test]
fn rejects_null_pointer() {
    let text = view_str(None);
    assert_eq!(text, None);
    assert_eq!(decode_str(None), None);
}

#[test]
fn compares_by_content() {
    let left = encode_str("same");
    let right = encode_str("same");
    let other = encode_str("other");
    assert_eq!(aster_rt_string_eq(Some(&left), Some(&right)), 1);
    assert_eq!(aster_rt_string_eq(Some(&left), Some(&other)), 0);
    assert_eq!(aster_rt_string_eq(None, None), 0);
}

#[test]
fn concatenates_into_context_and_copies_empty_operands() {
    let left = encode_str("Olá, ");
    let right = encode_str("Aster!");
    let empty = encode_str("");
    let mut context = new_context();
    let result = aster_rt_string_concat(Some(&mut context), Some(&left), Some(&right));
    assert_eq!(view(&context, result).as_deref(), Some("Olá, Aster!"));
    let copied = aster_rt_string_concat(Some(&mut context), Some(&empty), Some(&right));
    assert_ne!(copied, result);
    assert_eq!(view(&context, copied).as_deref(), Some("Aster!"));
    assert!(context.take_error().is_none());
}

#[test]
fn length_counts_unicode_scalars_not_utf8_bytes() {
    let text = encode_str("Olá, Mundo!");
    let mut context = new_context();
    assert_eq!(aster_rt_string_length(Some(&mut context), Some(&text)), 11);
    assert!(context.take_error().is_none());
}

#[test]
fn ordinal_search_handles_unicode_empty_and_absent_patterns_without_allocating() {
    let value = encode_str("aéβ🙂z");
    let accent = encode_str("é");
    let emoji = encode_str("🙂");
    let empty = encode_str("");
    let absent = encode_str("ASTER");
    let mut context = ExecutionContext::with_stats(identity(), devices());

    assert_eq!(
        aster_rt_string_contains(Some(&mut context), Some(&value), Some(&accent)),
        1
    );
    assert_eq!(
        aster_rt_string_starts_with(Some(&mut context), Some(&value), Some(&empty)),
        1
    );
    assert_eq!(
        aster_rt_string_ends_with(Some(&mut context), Some(&value), Some(&emoji)),
        0
    );
    assert_eq!(
        aster_rt_string_contains(Some(&mut context), Some(&value), Some(&absent)),
        0
    );
    assert_eq!(
        aster_rt_string_index_of(Some(&mut context), Some(&value), Some(&accent)),
        1
    );
    assert_eq!(
        aster_rt_string_index_of(Some(&mut context), Some(&value), Some(&emoji)),
        3
    );
    assert_eq!(
        aster_rt_string_index_of(Some(&mut context), Some(&value), Some(&empty)),
        0
    );
    for _ in 0..10_000 {
        assert_eq!(
            aster_rt_string_contains(Some(&mut context), Some(&value), Some(&accent)),
            1
        );
    }
    assert_eq!(context.memory_stats().total_allocations, 0);
    assert_eq!(context.memory_stats().used_bytes, 0);
    assert!(context.take_error().is_none());
}

#[test]
fn substring_uses_scalar_indices_and_allocates_in_the_selected_region() {
    let value = encode_str("aéβ🙂z");
    let mut context = ExecutionContext::with_stats(identity(), devices());
    let persistent = aster_rt_string_substring_range(Some(&mut context), Some(&value), 1, 3);
    assert_eq!(view(&context, persistent).as_deref(), Some("éβ🙂"));
    assert_eq!(context.memory_stats().string_allocations, 1);
    let persistent_used = context.memory_stats().used_bytes;

    aster_rt_temporary_scope_enter(Some(&mut context));
    let temporary =
        aster_rt_string_substring_range_temporary(Some(&mut context), Some(&value), 5, 0);
    assert_eq!(view(&context, temporary).as_deref(), Some(""));
    assert!(context.memory_stats().used_bytes > persistent_used);
    aster_rt_temporary_scope_leave(Some(&mut context));
    assert_eq!(context.memory_stats().string_allocations, 2);
    assert_eq!(context.memory_stats().used_bytes, persistent_used);
    assert!(context.take_error().is_none());
}

#[test]
fn substring_reports_every_invalid_range_without_publishing_a_string() {
    let value = encode_str("abc");
    for (start, length, expected) in [
        (-1, Some(1), "start -1, length 1"),
        (0, Some(-1), "start 0, length -1"),
        (4, None, "start 4"),
        (2, Some(2), "start 2, length 2"),
        (i32::MAX, Some(1), "start 2147483647, length 1"),
        (
            i32::MAX,
            Some(i32::MAX),
            "start 2147483647, length 2147483647",
        ),
    ] {
        let mut context = new_context();
        let result = match length {
            Some(length) => {
                aster_rt_string_substring_range(Some(&mut context), Some(&value), start, length)
            }
            None => aster_rt_string_substring_from(Some(&mut context), Some(&value), start),
        };
        assert!(result.is_none());
        let error = context.take_error().expect("range error is recorded");
        assert!(error.contains("String.Substring"));
        assert!(error.contains(expected));
        assert!(error.contains("current length 3"));
    }
}

#[test]
fn trim_uses_the_fixed_unicode_white_space_set() {
    let value = encode_str("\t\u{00a0}\u{2003}aáβ🙂z\u{3000}\r");
    let zero_width = encode_str("\u{200b}a\u{200b}");
    let mut context = new_context();

    let trimmed = aster_rt_string_trim(Some(&mut context), Some(&value));
    assert_eq!(view(&context, trimmed).as_deref(), Some("aáβ🙂z"));

    let unchanged = aster_rt_string_trim(Some(&mut context), Some(&zero_width));
    assert_ne!(unchanged, trimmed);
    assert_eq!(
        view(&context, unchanged).as_deref(),
        Some("\u{200b}a\u{200b}")
    );
    assert!(context.take_error().is_none());
}

#[test]
fn replace_is_left_to_right_non_overlapping_and_always_publishes_its_own_string() {
    let value = encode_str("aaaa");
    let old_value = encode_str("aa");
    let replacement = encode_str("aaa");
    let absent = encode_str("z");
    let mut context = new_context();

    let replaced = aster_rt_string_replace(
        Some(&mut context),
        Some(&value),
        Some(&old_value),
        Some(&replacement),
    );
    assert_eq!(view(&context, replaced).as_deref(), Some("aaaaaa"));

    let copied = aster_rt_string_replace(
        Some(&mut context),
        Some(&value),
        Some(&absent),
        Some(&replacement),
    );
    assert_ne!(copied, replaced);
    assert_eq!(view(&context, copied).as_deref(), Some("aaaa"));
    assert!(context.take_error().is_none());
}

#[test]
fn split_preserves_empty_segments_and_initializes_every_string_slot() {
    let value = encode_str("a,,β🙂,");
    let separator = encode_str(",");
    let empty = encode_str("");
    let mut context = new_context();

    let parts = aster_rt_string_split(Some(&mut context), Some(&value), Some(&separator)).unwrap();
    assert_eq!(array_strings(&mut context, &parts), ["a", "", "β🙂", ""]);

    let one_empty =
        aster_rt_string_split(Some(&mut context), Some(&empty), Some(&separator)).unwrap();
    assert_eq!(array_strings(&mut context, &one_empty), [""]);
    assert!(context.take_error().is_none());
}

#[test]
fn allocating_text_helpers_fail_controlled_without_invalidating_the_source() {
    let large_text = "x".repeat(MIN_PAGE_SIZE + 1);
    let value = encode_str(&large_text);
    let absent = encode_str("z");
    let mut substring_context = limited_context();
    assert!(
        aster_rt_string_substring_from(Some(&mut substring_context), Some(&value), 0).is_none()
    );
    let first_error = substring_context
        .take_error()
        .expect("substring allocation denial");
    assert!(first_error.contains("execution memory limit"));

    let mut replace_context = limited_context();
    assert!(aster_rt_string_replace(
        Some(&mut replace_context),
        Some(&value),
        Some(&absent),
        Some(&absent),
    )
    .is_none());
    let empty = encode_str("");
    assert!(
        aster_rt_string_split(Some(&mut replace_context), Some(&value), Some(&empty)).is_none()
    );
    let first_error = replace_context
        .take_error()
        .expect("replace allocation denial");
    assert!(first_error.contains("execution memory limit"));

    let many_segments = encode_str(&"x,".repeat(10_000));
    let separator = encode_str(",");
    let mut split_context = limited_context();
    assert!(aster_rt_string_split(
        Some(&mut split_context),
        Some(&many_segments),
        Some(&separator),
    )
    .is_none());
    let first_error = split_context.take_error().expect("split allocation denial");
    assert!(first_error.contains("execution memory limit"));

    assert_eq!(decode_str(Some(&value)).as_deref(), Some(large_text.as_str()));
}

#[test]
fn string_methods_reject_invalid_utf8_in_a_valid_sized_buffer() {
    let invalid = invalid_block("x");
    let pattern = encode_str("x");
    let mut context = new_context();
    assert_eq!(
        aster_rt_string_contains(Some(&mut context), Some(&invalid), Some(&pattern)),
        0
    );
    assert!(context
        .take_error()
        .is_some_and(|error| error.contains("String.Contains") && error.contains("UTF-8")));
}

#[test]
fn try_parse_rejects_invalid_utf8_in_a_controlled_buffer_without_touching_destination() {
    let invalid = invalid_block("1");
    let mut destination = option_destination();
    let mut context = new_context();
    aster_rt_string_try_parse_int(
        Some(&mut context),
        Some(&invalid),
        Some(&mut destination),
        16,
        1,
        0,
        8,
    );
    assert!(context
        .take_error()
        .is_some_and(|error| error.contains("TryParseInt") && error.contains("UTF-8")));
    assert_eq!(destination, option_destination());
}

#[test]
fn try_parse_rejects_out_of_bounds_option_layouts_without_touching_destination() {
    let value = encode_str("42");
    for (total_size, payload_offset) in [(3, 0), (8, 7), (16, i32::MAX)] {
        let mut destination = vec![0xaa_u8; 24];
        let expected = destination.clone();
        let mut context = new_context();
        aster_rt_string_try_parse_int(
            Some(&mut context),
            Some(&value),
            Some(&mut destination),
            total_size,
            1,
            0,
            payload_offset,
        );
        assert!(
            context
                .take_error()
                .is_some_and(|error| error.contains("layout")),
            "layout total={total_size} payload={payload_offset} must fail"
        );
        assert_eq!(destination, expected, "malformed layout must not write");
    }
}

type Parser =
    fn(Option<&mut ExecutionContext>, Option<&[u8]>, Option<&mut Vec<u8>>, i32, i32, i32, i32);

fn parse_float_of_one(
    context: Option<&mut ExecutionContext>,
    value: Option<&[u8]>,
    destination: Option<&mut Vec<u8>>,
    total_size: i32,
    some_tag: i32,
    none_tag: i32,
    payload_offset: i32,
) {
    let rounded = float_bits("1");
    aster_rt_string_try_parse_float(
        context,
        value,
        rounded,
        destination,
        total_size,
        some_tag,
        none_tag,
        payload_offset,
    );
}

fn parse_double_of_one(
    context: Option<&mut ExecutionContext>,
    value: Option<&[u8]>,
    destination: Option<&mut Vec<u8>>,
    total_size: i32,
    some_tag: i32,
    none_tag: i32,
    payload_offset: i32,
) {
    let rounded = double_bits("1");
    aster_rt_string_try_parse_double(
        context,
        value,
        rounded,
        destination,
        total_size,
        some_tag,
        none_tag,
        payload_offset,
    );
}

#[test]
fn try_parse_payload_bounds_follow_each_scalar_width() {
    let parsers: [(&str, Parser, i32, i32); 9] = [
        ("Bool", aster_rt_string_try_parse_bool, 8, 8),
        ("Byte", aster_rt_string_try_parse_byte, 8, 8),
        ("Short", aster_rt_string_try_parse_short, 8, 7),
        ("Char", aster_rt_string_try_parse_char, 8, 5),
        ("Int", aster_rt_string_try_parse_int, 8, 5),
        ("Long", aster_rt_string_try_parse_long, 16, 9),
        ("ULong", aster_rt_string_try_parse_ulong, 16, 9),
        ("Float", parse_float_of_one, 8, 5),
        ("Double", parse_double_of_one, 16, 9),
    ];
    let value = encode_str("1");
    for (name, parser, total_size, payload_offset) in parsers {
        let mut destination = vec![0xaa_u8; 24];
        let expected = destination.clone();
        let mut context = new_context();
        parser(
            Some(&mut context),
            Some(&value),
            Some(&mut destination),
            total_size,
            1,
            0,
            payload_offset,
        );
        assert!(
            context
                .take_error()
                .is_some_and(|error| error.contains(name) && error.contains("layout")),
            "TryParse{name} malformed payload must fail"
        );
        assert_eq!(
            destination, expected,
            "TryParse{name} must not publish a malformed Option"
        );
    }
}

#[test]
fn try_parse_error_does_not_contaminate_a_later_valid_call() {
    let invalid = invalid_block("1");
    let mut context = new_context();
    let mut destination = option_destination();
    aster_rt_string_try_parse_int(
        Some(&mut context),
        Some(&invalid),
        Some(&mut destination),
        16,
        1,
        0,
        8,
    );
    assert!(context.take_error().is_some());

    let valid = encode_str("42");
    aster_rt_string_try_parse_int(
        Some(&mut context),
        Some(&valid),
        Some(&mut destination),
        16,
        1,
        0,
        8,
    );
    assert!(context.take_error().is_none());
    assert_eq!(number(&destination, 0), 1);
    assert_eq!(number(&destination, 8), 42);
}

#[test]
fn try_parse_writes_the_complete_option_representation_on_success_and_failure() {
    let mut context = new_context();
    let mut destination = option_destination();

    let some_text = encode_str("123");
    aster_rt_string_try_parse_int(
        Some(&mut context),
        Some(&some_text),
        Some(&mut destination),
        16,
        1,
        0,
        8,
    );
    assert!(context.take_error().is_none());
    assert_eq!(number(&destination, 0), 1);
    assert_eq!(number(&destination, 8), 123);

    let none_text = encode_str("not a number");
    aster_rt_string_try_parse_int(
        Some(&mut context),
        Some(&none_text),
        Some(&mut destination),
        16,
        1,
        0,
        8,
    );
    assert!(context.take_error().is_none());
    assert_eq!(number(&destination, 0), 0);
    assert_eq!(number(&destination, 8), 0);
}

#[test]
fn try_parse_bool_accepts_case_insensitive_ascii_without_allocating_a_lowercase_copy() {
    let mut context = ExecutionContext::with_stats(identity(), devices());
    let mut destination = option_destination();
    let text = encode_str("fAlSe");
    aster_rt_string_try_parse_bool(
        Some(&mut context),
        Some(&text),
        Some(&mut destination),
        16,
        1,
        0,
        4,
    );
    assert!(context.take_error().is_none());
    assert_eq!(context.memory_stats().string_allocations, 0);
    assert_eq!(number(&destination, 0), 1);
    assert_eq!(destination[4], 0);
}

#[test]
fn float_grammar_accepts_every_required_valid_form() {
    for text in [
        "0",
        "+0",
        "-0",
        "1",
        "-1",
        "0001",
        "1.0",
        "1.",
        ".5",
        "-.5",
        "+0.25",
        "1e3",
        "1E3",
        "1e+3",
        "1e-3",
        "-1.25e+10",
    ] {
        assert!(
            is_valid_float_grammar(text.as_bytes()),
            "{text:?} should be valid"
        );
    }
}

#[test]
fn float_grammar_rejects_every_required_invalid_form() {
    for text in [
        "",
        "+",
        "-",
        ".",
        "+.",
        "-.",
        "e10",
        "1e",
        "1e+",
        "1e-",
        "1.2.3",
        "1e2e3",
        " 1.0",
        "1.0 ",
        "1_000.0",
        "1,5",
        "\u{FF11}\u{FF12}.\u{FF15}",
        "0x1.0",
        "1f",
        "1d",
        "NaN",
        "nan",
        "inf",
        "-INF",
        "Infinity",
        "+Infinity",
        "-Infinity",
    ] {
        assert!(
            !is_valid_float_grammar(text.as_bytes()),
            "{text:?} should be invalid"
        );
    }
}

#[test]
fn try_parse_double_preserves_negative_zero_bit_pattern() {
    for (text, expected_bits) in [
        ("-0", 0x8000_0000_0000_0000_u64),
        ("-0.0", 0x8000_0000_0000_0000_u64),
        ("0", 0),
        ("0.0", 0),
    ] {
        let mut context = new_context();
        let mut destination = option_destination();
        let input = encode_str(text);
        aster_rt_string_try_parse_double(
            Some(&mut context),
            Some(&input),
            double_bits(text),
            Some(&mut destination),
            16,
            1,
            0,
            8,
        );
        assert!(context.take_error().is_none());
        assert_eq!(number(&destination, 0), 1);
        let bits = u64::from_le_bytes(destination[8..16].try_into().unwrap());
        assert_eq!(bits, expected_bits, "{text:?} produced the wrong sign bit");
    }
}

#[test]
fn try_parse_float_preserves_negative_zero_bit_pattern() {
    for (text, expected_bits) in [
        ("-0", 0x8000_0000_u32),
        ("-0.0", 0x8000_0000_u32),
        ("0", 0),
        ("0.0", 0),
    ] {
        let mut context = new_context();
        let mut destination = option_destination();
        let input = encode_str(text);
        aster_rt_string_try_parse_float(
            Some(&mut context),
            Some(&input),
            float_bits(text),
            Some(&mut destination),
            8,
            1,
            0,
            4,
        );
        assert!(context.take_error().is_none());
        assert_eq!(number(&destination, 0), 1);
        let bits = u32::from_le_bytes(destination[4..8].try_into().unwrap());
        assert_eq!(bits, expected_bits, "{text:?} produced the wrong sign bit");
    }
}

#[test]
fn try_parse_double_rejects_nan_and_infinity_text_and_overflow() {
    let mut context = new_context();
    let mut destination = option_destination();
    for text in ["NaN", "inf", "-Infinity", "1.7976931348623159e308"] {
        let input = encode_str(text);
        aster_rt_string_try_parse_double(
            Some(&mut context),
            Some(&input),
            double_bits(text),
            Some(&mut destination),
            16,
            1,
            0,
            8,
        );
        assert!(context.take_error().is_none());
        assert_eq!(number(&destination, 0), 0, "{text:?} should be None");
    }
}

#[test]
fn from_float_and_from_double_preserve_negative_zero_sign_in_text() {
    let mut context = new_context();
    assert_eq!(from_float(&mut context, -0.0_f32), "-0");
    assert_eq!(from_float(&mut context, 0.0_f32), "0");
    assert_eq!(from_double(&mut context, -0.0_f64), "-0");
    assert_eq!(from_double(&mut context, 0.0_f64), "0");
}

#[test]
fn from_float_never_formats_through_a_widened_double() {
    let mut context = new_context();
    assert_eq!(from_float(&mut context, 0.1_f32), "0.1");
}

#[test]
fn from_float_and_from_double_produce_a_stable_special_value_text() {
    let mut context = new_context();
    assert_eq!(from_float(&mut context, f32::NAN), "NaN");
    assert_eq!(from_float(&mut context, f32::INFINITY), "inf");
    assert_eq!(from_float(&mut context, f32::NEG_INFINITY), "-inf");
    assert_eq!(from_double(&mut context, f64::NAN), "NaN");
    assert_eq!(from_double(&mut context, f64::INFINITY), "inf");
    assert_eq!(from_double(&mut context, f64::NEG_INFINITY), "-inf");
    let mut destination = option_destination();
    let input = encode_str("NaN");
    aster_rt_string_try_parse_double(
        Some(&mut context),
        Some(&input),
        double_bits("NaN"),
        Some(&mut destination),
        16,
        1,
        0,
        8,
    );
    assert_eq!(number(&destination, 0), 0);
}

#[test]
fn try_parse_float_rejects_invalid_utf8_in_a_controlled_buffer_without_touching_destination() {
    let invalid = invalid_block("1.0");
    let mut destination = option_destination();
    let mut context = new_context();
    aster_rt_string_try_parse_float(
        Some(&mut context),
        Some(&invalid),
        None,
        Some(&mut destination),
        8,
        1,
        0,
        4,
    );
    assert!(context
        .take_error()
        .is_some_and(|error| error.contains("TryParseFloat") && error.contains("UTF-8")));
    assert_eq!(destination, option_destination());
}

#[test]
fn try_parse_float_error_does_not_contaminate_a_later_valid_call() {
    let invalid = invalid_block("1.0");
    let mut context = new_context();
    let mut destination = option_destination();
    aster_rt_string_try_parse_float(
        Some(&mut context),
        Some(&invalid),
        None,
        Some(&mut destination),
        8,
        1,
        0,
        4,
    );
    assert!(context.take_error().is_some());

    let valid = encode_str("2.5");
    aster_rt_string_try_parse_float(
        Some(&mut context),
        Some(&valid),
        float_bits("2.5"),
        Some(&mut destination),
        8,
        1,
        0,
        4,
    );
    assert!(context.take_error().is_none());
    assert_eq!(number(&destination, 0), 1);
    let value = f32::from_le_bytes(destination[4..8].try_into().unwrap());
    assert!((value - 2.5).abs() < f32::EPSILON);
}

#[test]
fn numbers_truth_values_and_characters_become_text() {
    let mut context = new_context();
    let long = aster_rt_string_from_long(Some(&mut context), i64::MIN);
    assert_eq!(view(&context, long).as_deref(), Some("-9223372036854775808"));
    let ulong = aster_rt_string_from_ulong(Some(&mut context), -1);
    assert_eq!(view(&context, ulong).as_deref(), Some("18446744073709551615"));
    let yes = aster_rt_string_from_bool(Some(&mut context), 1);
    assert_eq!(view(&context, yes).as_deref(), Some("true"));
    let no = aster_rt_string_from_bool(Some(&mut context), 0);
    assert_eq!(view(&context, no).as_deref(), Some("false"));
    let smile = aster_rt_string_from_char(Some(&mut context), 0x1F642);
    assert_eq!(view(&context, smile).as_deref(), Some("🙂"));
    assert!(context.take_error().is_none());
    assert!(aster_rt_string_from_char(Some(&mut context), 0xD800).is_none());
    assert!(context.take_error().is_some());
}

#[test]
fn integers_are_parsed_within_their_own_bounds() {
    let parsers: [(Parser, &str, &str, usize); 8] = [
        (aster_rt_string_try_parse_sbyte, "-128", "128", 1),
        (aster_rt_string_try_parse_byte, "255", "256", 1),
        (aster_rt_string_try_parse_short, "-32768", "32768", 2),
        (aster_rt_string_try_parse_ushort, "65535", "-0", 2),
        (aster_rt_string_try_parse_int, "+2147483647", "2147483648", 4),
        (aster_rt_string_try_parse_uint, "4294967295", "4294967296", 4),
        (aster_rt_string_try_parse_long, "-9223372036854775808", "9223372036854775808", 8),
        (aster_rt_string_try_parse_ulong, "18446744073709551615", "18446744073709551616", 8),
    ];
    for (parser, good, bad, width) in parsers {
        let mut context = new_context();
        let mut destination = option_destination();
        let text = encode_str(good);
        parser(Some(&mut context), Some(&text), Some(&mut destination), 16, 7, 9, 8);
        assert_eq!(number(&destination, 0), 7, "{good}");
        let value: i128 = good.parse().unwrap();
        assert_eq!(&destination[8..8 + width], &value.to_le_bytes()[..width]);
        let text = encode_str(bad);
        parser(Some(&mut context), Some(&text), Some(&mut destination), 16, 7, 9, 8);
        assert_eq!(number(&destination, 0), 9, "{bad}");
        assert_eq!(&destination[8..], &[0; 8]);
        assert!(context.take_error().is_none());
    }
    let mut context = new_context();
    let mut destination = option_destination();
    let text = encode_str("β");
    aster_rt_string_try_parse_char(
        Some(&mut context),
        Some(&text),
        Some(&mut destination),
        16,
        1,
        0,
        8,
    );
    assert_eq!((number(&destination, 0), number(&destination, 8)), (1, 0x3B2));
    let text = encode_str("ββ");
    aster_rt_string_try_parse_char(
        Some(&mut context),
        Some(&text),
        Some(&mut destination),
        16,
        1,
        0,
        8,
    );
    assert_eq!(number(&destination, 0), 0);
}

#[test]
fn parsing_gives_back_the_number_that_was_formatted() {
    for value in [i64::MIN, -1, 0, 7, i64::MAX] {
        let mut context = new_context();
        let address = aster_rt_string_from_long(Some(&mut context), value);
        let text = encode_str(&view(&context, address).unwrap());
        let mut destination = option_destination();
        aster_rt_string_try_parse_long(
            Some(&mut context),
            Some(&text),
            Some(&mut destination),
            16,
            1,
            0,
            8,
        );
        assert_eq!(
            i64::from_le_bytes(destination[8..16].try_into().unwrap()),
            value
        );
    }
}

#[test]
fn joining_undoes_splitting() {
    let text = "one, two,, three";
    let value = encode_str(text);
    let separator = encode_str(", ");
    let mut context = new_context();
    let parts = aster_rt_string_split(Some(&mut context), Some(&value), Some(&separator)).unwrap();
    assert_eq!(array_strings(&mut context, &parts), ["one", "two,", "three"]);
    let joined = aster_rt_string_join_array(Some(&mut context), Some(&separator), Some(&parts));
    assert_eq!(view(&context, joined).as_deref(), Some(text));
    let pressed = aster_rt_string_concat_array(Some(&mut context), Some(&parts));
    assert_eq!(view(&context, pressed).as_deref(), Some("onetwo,three"));
    let empty = encode_str("");
    assert!(aster_rt_string_split(Some(&mut context), Some(&value), Some(&empty)).is_none());
    assert_eq!(
        context.take_error().as_deref(),
        Some("String.Split requires a non-empty separator")
    );
}

#[test]
fn characters_taken_apart_are_put_together_again() {
    let value = encode_str("aβ🙂");
    let mut context = new_context();
    let chars = aster_rt_string_to_chars(Some(&mut context), Some(&value)).unwrap();
    assert_eq!((chars.length, chars.element_size), (3, 4));
    let bytes = context.read_memory(chars.data, 12).unwrap();
    assert_eq!(u32::from_le_bytes(bytes[8..12].try_into().unwrap()), 0x1F642);
    let text = aster_rt_string_from_chars(Some(&mut context), Some(&chars));
    assert_eq!(view(&context, text).as_deref(), Some("aβ🙂"));
    assert!(context.write_memory(chars.data, &0xD800_u32.to_le_bytes()));
    assert!(aster_rt_string_from_chars(Some(&mut context), Some(&chars)).is_none());
    assert!(context.take_error().is_some());
}

#[test]
fn text_is_trimmed_repeated_and_joined() {
    let value = encode_str("  a b\n");
    let mut context = new_context();
    let start = aster_rt_string_trim_start(Some(&mut context), Some(&value));
    assert_eq!(view(&context, start).as_deref(), Some("a b\n"));
    let end = aster_rt_string_trim_end(Some(&mut context), Some(&value));
    assert_eq!(view(&context, end).as_deref(), Some("  a b"));
    let unit = encode_str("ab");
    let many = aster_rt_string_repeat(Some(&mut context), Some(&unit), 3);
    assert_eq!(view(&context, many).as_deref(), Some("ababab"));
    let none = aster_rt_string_repeat(Some(&mut context), Some(&unit), 0);
    assert_eq!(view(&context, none).as_deref(), Some(""));
    let parts: [Option<&[u8]>; 2] = [Some(&unit), Some(&unit)];
    let joined = aster_rt_string_join(Some(&mut context), Some(&parts), 2);
    assert_eq!(view(&context, joined).as_deref(), Some("abab"));
    assert!(context.take_error().is_none());
    assert!(aster_rt_string_repeat(Some(&mut context), Some(&unit), -1).is_none());
    assert!(context.take_error().is_some());
}

#[test]
fn the_last_occurrence_may_overlap_an_earlier_one() {
    let value = encode_str("aaa");
    let pattern = encode_str("aa");
    let empty = encode_str("");
    let absent = encode_str("b");
    let mut context = new_context();
    assert_eq!(
        aster_rt_string_last_index_of(Some(&mut context), Some(&value), Some(&pattern)),
        1
    );
    assert_eq!(
        aster_rt_string_last_index_of(Some(&mut context), Some(&value), Some(&empty)),
        3
    );
    assert_eq!(
        aster_rt_string_last_index_of(Some(&mut context), Some(&value), Some(&absent)),
        -1
    );
    assert!(context.take_error().is_none());
}

#[test]
fn scalars_are_decoded_one_after_the_other() {
    let value = encode_str("é🙂");
    let mut context = new_context();
    assert_eq!(
        aster_rt_string_byte_length(Some(&mut context), Some(&value)),
        6
    );
    let (mut scalar, mut next) = (0, 0);
    let more = aster_rt_string_decode_next(
        Some(&mut context),
        Some(&value),
        0,
        Some(&mut scalar),
        Some(&mut next),
    );
    assert_eq!((more, scalar, next), (1, 0xE9, 2));
    let more = aster_rt_string_decode_next(
        Some(&mut context),
        Some(&value),
        2,
        Some(&mut scalar),
        Some(&mut next),
    );
    assert_eq!((more, scalar, next), (1, 0x1F642, 6));
    assert!(context.take_error().is_none());
    let more = aster_rt_string_decode_next(
        Some(&mut context),
        Some(&value),
        6,
        Some(&mut scalar),
        Some(&mut next),
    );
    assert_eq!((more, scalar, next), (0, 0x1F642, 6));
    assert!(context.take_error().is_some());
}

#[test]
fn the_header_of_a_block_counts_bytes_and_not_characters() {
    let block = encode_str("ol\u{e1}");
    assert_eq!(AsterStrHeader::read(&block).map(|header| header.len), Some(4));
    assert!(AsterStrHeader::read(&block[..7]).is_none());
}

#[test]
fn a_split_lies_in_its_own_arena_and_is_counted() {
    let value = encode_str("ab,c");
    let separator = encode_str(",");
    let mut context = ExecutionContext::with_stats(identity(), devices());

    let parts = aster_rt_string_split(Some(&mut context), Some(&value), Some(&separator)).unwrap();
    assert_ne!(parts.address, parts.data);
    assert!(context.is_allocated(parts.address, 16));
    assert!(context.is_allocated(parts.data, 16));
    let stats = *context.memory_stats();
    assert_eq!(stats.array_allocations, 1);
    assert_eq!(stats.string_allocations, 2);
    assert_eq!(stats.total_allocations, 3);
    assert_eq!(stats.requested_bytes, 16 + 10 + 9);
    assert_eq!(context.arena_metrics(true).used_bytes, 0);
    let persistent = context.arena_metrics(false).used_bytes;

    aster_rt_temporary_scope_enter(Some(&mut context));
    let short =
        aster_rt_string_split_temporary(Some(&mut context), Some(&value), Some(&separator))
            .unwrap();
    assert_eq!(array_strings(&mut context, &short), ["ab", "c"]);
    assert_eq!(context.arena_metrics(false).used_bytes, persistent);
    assert!(context.arena_metrics(true).used_bytes > 0);
    aster_rt_temporary_scope_leave(Some(&mut context));
    assert!(!context.is_allocated(short.address, 1));
    assert_eq!(context.arena_metrics(true).used_bytes, 0);
    assert_eq!(array_strings(&mut context, &parts), ["ab", "c"]);
    assert!(context.take_error().is_none());
}

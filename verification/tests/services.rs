use aster_runtime::context::{ContextIdentity, ExecutionContext, HostDevices};
use aster_runtime::io::MemoryConsoleBackend;
use aster_runtime::memory_files::MemoryFileSystemBackend;
use aster_runtime::foreign::{
    aster_rt_foreign_error, ForeignRegistry, ForeignSignature, ForeignType,
};
use aster_runtime::io_error::{
    classify_io_error, HostIoError, HostIoErrorKind, PortableIoErrorKind,
};
use aster_runtime::math::{
    aster_rt_assert_equal, aster_rt_integer_arithmetic_error, aster_rt_math_domain_error,
    aster_rt_math_predicate_double, aster_rt_math_predicate_float, aster_rt_random_mix,
    UnaryOperation,
};
use aster_runtime::memory_governor::MemoryGovernor;
use aster_runtime::registry::{runtime_functions, RuntimeFunction, RuntimeType, RUNTIME_FUNCTION_COUNT};
use aster_runtime::string::encode_str;
use aster_runtime::time::{monotonic_milliseconds, unix_milliseconds};

fn devices() -> HostDevices {
    HostDevices {
        console: Box::new(MemoryConsoleBackend::default()),
        filesystem: Box::new(MemoryFileSystemBackend::new()),
    }
}

fn new_context() -> ExecutionContext {
    ExecutionContext::new(ContextIdentity {
        persistent_arena_id: 1,
        temporary_arena_id: 2,
        dictionary_hash_k0: 3,
        dictionary_hash_k1: 4,
        dictionary_owner_id: 5,
    }, devices())
}

/// What a host tells of one of its errors.
fn described(error: &std::io::Error) -> HostIoError {
    let kind = match error.kind() {
        std::io::ErrorKind::NotFound => HostIoErrorKind::NotFound,
        std::io::ErrorKind::PermissionDenied => HostIoErrorKind::PermissionDenied,
        std::io::ErrorKind::AlreadyExists => HostIoErrorKind::AlreadyExists,
        std::io::ErrorKind::Interrupted => HostIoErrorKind::Interrupted,
        std::io::ErrorKind::UnexpectedEof => HostIoErrorKind::UnexpectedEof,
        std::io::ErrorKind::TimedOut => HostIoErrorKind::TimedOut,
        std::io::ErrorKind::WriteZero => HostIoErrorKind::WriteZero,
        _ => HostIoErrorKind::Other,
    };
    HostIoError {
        kind,
        raw_os_error: error.raw_os_error(),
        text: error.to_string(),
    }
}

#[test]
fn classifies_not_found() {
    let error = std::io::Error::from(std::io::ErrorKind::NotFound);
    assert_eq!(
        classify_io_error(&described(&error)).kind,
        PortableIoErrorKind::NotFound
    );
}

#[test]
fn classifies_permission_denied() {
    let error = std::io::Error::from(std::io::ErrorKind::PermissionDenied);
    assert_eq!(
        classify_io_error(&described(&error)).kind,
        PortableIoErrorKind::PermissionDenied
    );
}

#[test]
fn classifies_already_exists() {
    let error = std::io::Error::from(std::io::ErrorKind::AlreadyExists);
    assert_eq!(
        classify_io_error(&described(&error)).kind,
        PortableIoErrorKind::AlreadyExists
    );
}

#[test]
fn classifies_unmapped_kinds_as_other() {
    for kind in [
        std::io::ErrorKind::Interrupted,
        std::io::ErrorKind::UnexpectedEof,
        std::io::ErrorKind::TimedOut,
        std::io::ErrorKind::WriteZero,
    ] {
        let error = std::io::Error::from(kind);
        assert_eq!(
            classify_io_error(&described(&error)).kind,
            PortableIoErrorKind::Other,
            "{kind:?} should classify as Other"
        );
    }
}

#[test]
fn preserves_the_raw_os_error_code_when_present() {
    let error = std::io::Error::from_raw_os_error(2);
    assert_eq!(classify_io_error(&described(&error)).os_code, 2);
}

#[test]
fn absent_raw_os_error_classifies_as_zero() {
    let error = std::io::Error::from(std::io::ErrorKind::NotFound);
    assert_eq!(error.raw_os_error(), None, "test assumes a synthetic error");
    assert_eq!(classify_io_error(&described(&error)).os_code, 0);
}

#[test]
fn classification_allocates_nothing_across_thousands_of_calls() {
    for code in 0..5000 {
        let error = std::io::Error::from_raw_os_error(code % 50);
        let classified = classify_io_error(&described(&error));
        assert_eq!(classified.os_code, code % 50);
    }
}

#[test]
fn a_kind_alone_is_described_as_the_host_describes_it() {
    for (kind, host) in [
        (HostIoErrorKind::NotFound, std::io::ErrorKind::NotFound),
        (HostIoErrorKind::PermissionDenied, std::io::ErrorKind::PermissionDenied),
        (HostIoErrorKind::AlreadyExists, std::io::ErrorKind::AlreadyExists),
        (HostIoErrorKind::Interrupted, std::io::ErrorKind::Interrupted),
        (HostIoErrorKind::UnexpectedEof, std::io::ErrorKind::UnexpectedEof),
        (HostIoErrorKind::TimedOut, std::io::ErrorKind::TimedOut),
        (HostIoErrorKind::WriteZero, std::io::ErrorKind::WriteZero),
        (HostIoErrorKind::Unsupported, std::io::ErrorKind::Unsupported),
        (HostIoErrorKind::InvalidInput, std::io::ErrorKind::InvalidInput),
        (HostIoErrorKind::DirectoryNotEmpty, std::io::ErrorKind::DirectoryNotEmpty),
        (HostIoErrorKind::Other, std::io::ErrorKind::Other),
    ] {
        assert_eq!(
            HostIoError::of_kind(kind).text,
            std::io::Error::from(host).to_string()
        );
    }
}

const PAGE: usize = 4 * 1024;

#[test]
fn admission_is_exact_at_page_boundaries() {
    let mut below = MemoryGovernor::new(PAGE - 1);
    assert!(below.try_acquire(PAGE).is_none());
    assert_eq!(below.telemetry().current_capacity_bytes, 0);

    let mut exact = MemoryGovernor::new(PAGE);
    let reservation = exact.try_acquire(PAGE).expect("exact limit is admitted");
    assert!(exact.try_acquire(PAGE).is_none());
    assert_eq!(exact.telemetry().current_capacity_bytes, PAGE as u64);
    exact.release(reservation);

    let mut above = MemoryGovernor::new(PAGE + PAGE);
    let first = above.try_acquire(PAGE).expect("first page is admitted");
    let second = above.try_acquire(PAGE).expect("second page is admitted");
    assert_eq!(above.telemetry().current_capacity_bytes, (PAGE * 2) as u64);
    above.release(first);
    above.release(second);
    assert_eq!(above.telemetry().current_capacity_bytes, 0);
}

#[test]
fn admission_overflow_is_denied_without_changing_current_capacity() {
    let mut governor = MemoryGovernor::new(usize::MAX);
    let reservation = governor
        .try_acquire(usize::MAX)
        .expect("the exact maximum fits");
    let before_denial = governor.telemetry();
    assert!(governor.try_acquire(1).is_none());
    let after_denial = governor.telemetry();
    assert_eq!(
        after_denial.current_capacity_bytes,
        before_denial.current_capacity_bytes
    );
    assert_eq!(after_denial.denial_events, 1);
    governor.release(reservation);
    assert_eq!(governor.telemetry().current_capacity_bytes, 0);
}

#[test]
fn a_governor_counts_what_it_grants_and_gets_back() {
    let mut governor = MemoryGovernor::new(10);
    let first = governor.try_acquire(4).unwrap();
    let second = governor.try_acquire(6).unwrap();
    assert!(governor.try_acquire(1).is_none());
    governor.release(first);
    let telemetry = governor.telemetry();
    assert_eq!(governor.hard_limit_bytes(), 10);
    assert_eq!(telemetry.hard_limit_bytes, 10);
    assert_eq!(telemetry.current_capacity_bytes, 6);
    assert_eq!(telemetry.peak_capacity_bytes, 10);
    assert_eq!(telemetry.grant_events, 2);
    assert_eq!(telemetry.denial_events, 1);
    assert_eq!(telemetry.release_events, 1);
    assert_eq!(telemetry.granted_bytes_cumulative, 10);
    assert_eq!(telemetry.released_bytes_cumulative, 4);
    governor.release(second);
    let telemetry = governor.telemetry();
    assert_eq!(telemetry.current_capacity_bytes, 0);
    assert_eq!(telemetry.peak_capacity_bytes, 10);
    assert_eq!(telemetry.grant_events, telemetry.release_events);
    assert_eq!(
        telemetry.granted_bytes_cumulative,
        telemetry.released_bytes_cumulative
    );
}

fn all_functions() -> Vec<RuntimeFunction> {
    let addresses: Vec<usize> = (1..=RUNTIME_FUNCTION_COUNT).collect();
    runtime_functions(&addresses)
}

#[test]
fn registry_has_unique_names_and_valid_addresses() {
    let functions = all_functions();
    let mut names = functions.iter().map(|f| f.name).collect::<Vec<_>>();
    names.sort_unstable();
    names.dedup();
    assert_eq!(names.len(), functions.len());
    assert!(functions.iter().all(|f| f.address != 0));
    for (i, function) in functions.iter().enumerate() {
        assert_eq!(function.address, i + 1);
    }
}

#[test]
fn registry_lists_every_group_of_functions() {
    let functions = all_functions();
    assert_eq!(functions.len(), RUNTIME_FUNCTION_COUNT);
    for name in [
        "aster_rt_dictionary_new",
        "aster_rt_dictionary_entries",
        "aster_rt_string_trim",
        "aster_rt_string_split",
        "aster_rt_string_replace_temporary",
        "aster_rt_string_try_parse_sbyte",
        "aster_rt_io_append_all_text",
        "aster_rt_io_path_bool",
        "aster_rt_math_pow_double",
        "aster_rt_foreign_error",
        "aster_rt_time_unix_milliseconds",
    ] {
        assert!(functions.iter().any(|f| f.name == name), "{name}");
    }
    let power = functions.iter().find(|f| f.name == "aster_rt_math_pow_double").unwrap();
    assert_eq!(power.signature.parameters, &[RuntimeType::F64, RuntimeType::F64]);
    assert_eq!(power.signature.result, Some(RuntimeType::F64));
}

#[test]
fn logging_signature_matches_abi() {
    let functions = all_functions();
    let log = functions.iter().find(|f| f.name == "aster_rt_log").unwrap();
    assert_eq!(
        log.signature.parameters,
        &[RuntimeType::I32, RuntimeType::Pointer]
    );
    assert_eq!(log.signature.result, None);
}

#[test]
fn string_search_and_substring_signatures_match_the_abi() {
    let functions = all_functions();
    for name in [
        "aster_rt_string_contains",
        "aster_rt_string_starts_with",
        "aster_rt_string_ends_with",
    ] {
        let function = functions
            .iter()
            .find(|function| function.name == name)
            .unwrap_or_else(|| panic!("missing runtime function `{name}`"));
        assert_eq!(
            function.signature.parameters,
            &[
                RuntimeType::Pointer,
                RuntimeType::Pointer,
                RuntimeType::Pointer,
            ]
        );
        assert_eq!(function.signature.result, Some(RuntimeType::I8));
    }
    let index = functions
        .iter()
        .find(|function| function.name == "aster_rt_string_index_of")
        .expect("IndexOf binding");
    assert_eq!(
        index.signature.parameters,
        &[
            RuntimeType::Pointer,
            RuntimeType::Pointer,
            RuntimeType::Pointer,
        ]
    );
    assert_eq!(index.signature.result, Some(RuntimeType::I32));

    for name in [
        "aster_rt_string_substring_from",
        "aster_rt_string_substring_from_temporary",
    ] {
        let function = functions
            .iter()
            .find(|function| function.name == name)
            .unwrap_or_else(|| panic!("missing runtime function `{name}`"));
        assert_eq!(
            function.signature.parameters,
            &[RuntimeType::Pointer, RuntimeType::Pointer, RuntimeType::I32]
        );
        assert_eq!(function.signature.result, Some(RuntimeType::Pointer));
    }
    for name in [
        "aster_rt_string_substring_range",
        "aster_rt_string_substring_range_temporary",
    ] {
        let function = functions
            .iter()
            .find(|function| function.name == name)
            .unwrap_or_else(|| panic!("missing runtime function `{name}`"));
        assert_eq!(
            function.signature.parameters,
            &[
                RuntimeType::Pointer,
                RuntimeType::Pointer,
                RuntimeType::I32,
                RuntimeType::I32,
            ]
        );
        assert_eq!(function.signature.result, Some(RuntimeType::Pointer));
    }
}

#[test]
fn integer_arithmetic_error_signature_matches_abi() {
    let functions = all_functions();
    let reporter = functions
        .iter()
        .find(|function| function.name == "aster_rt_integer_arithmetic_error")
        .unwrap();
    assert_eq!(
        reporter.signature.parameters,
        &[RuntimeType::Pointer, RuntimeType::I32]
    );
    assert_eq!(reporter.signature.result, None);
}

#[test]
fn temporary_allocation_signatures_match_the_abi() {
    let functions = all_functions();

    for (name, parameters) in [
        (
            "aster_rt_object_new_temporary",
            &[RuntimeType::Pointer, RuntimeType::I32][..],
        ),
        (
            "aster_rt_array_new_temporary",
            &[RuntimeType::Pointer, RuntimeType::I32, RuntimeType::I32][..],
        ),
        (
            "aster_rt_string_concat_temporary",
            &[
                RuntimeType::Pointer,
                RuntimeType::Pointer,
                RuntimeType::Pointer,
            ][..],
        ),
        (
            "aster_rt_string_join_temporary",
            &[RuntimeType::Pointer, RuntimeType::Pointer, RuntimeType::I32][..],
        ),
    ] {
        let function = functions
            .iter()
            .find(|function| function.name == name)
            .unwrap_or_else(|| panic!("missing runtime function `{name}`"));
        assert_eq!(function.signature.parameters, parameters);
        assert_eq!(function.signature.result, Some(RuntimeType::Pointer));
    }

    for name in [
        "aster_rt_string_from_long_temporary",
        "aster_rt_string_from_ulong_temporary",
    ] {
        let function = functions
            .iter()
            .find(|function| function.name == name)
            .unwrap_or_else(|| panic!("missing runtime function `{name}`"));
        assert_eq!(
            function.signature.parameters,
            &[RuntimeType::Pointer, RuntimeType::I64]
        );
        assert_eq!(function.signature.result, Some(RuntimeType::Pointer));
    }

    for name in [
        "aster_rt_temporary_scope_enter",
        "aster_rt_temporary_scope_leave",
    ] {
        let function = functions
            .iter()
            .find(|function| function.name == name)
            .unwrap_or_else(|| panic!("missing runtime function `{name}`"));
        assert_eq!(function.signature.parameters, &[RuntimeType::Pointer]);
        assert_eq!(function.signature.result, None);
    }
}

#[test]
fn splitmix64_mixer_matches_known_answers() {
    assert_eq!(
        aster_rt_random_mix(0x9e37_79b9_7f4a_7c15),
        16_294_208_416_658_607_535
    );
    assert_eq!(
        aster_rt_random_mix(11_400_714_819_323_198_608),
        13_032_462_758_197_477_675
    );
}

#[test]
fn records_a_controlled_domain_error() {
    let mut context = new_context();
    aster_rt_math_domain_error(Some(&mut context), 2);
    assert!(context.take_error().unwrap().contains("min"));
}

#[test]
fn records_controlled_integer_arithmetic_errors() {
    for (code, expected) in [
        (0, "integer division by zero"),
        (1, "integer remainder by zero"),
        (2, "signed integer division overflow"),
        (3, "signed integer remainder overflow"),
    ] {
        let mut context = new_context();
        aster_rt_integer_arithmetic_error(Some(&mut context), code);
        assert_eq!(context.take_error().as_deref(), Some(expected));
    }
}

#[test]
fn unknown_codes_have_reports_of_their_own() {
    let mut context = new_context();
    aster_rt_math_domain_error(Some(&mut context), 9);
    assert_eq!(context.take_error().as_deref(), Some("unknown runtime error"));
    aster_rt_integer_arithmetic_error(Some(&mut context), -1);
    assert_eq!(
        context.take_error().as_deref(),
        Some("unknown integer arithmetic error")
    );
    aster_rt_math_domain_error(Some(&mut context), 8);
    assert_eq!(
        context.take_error().as_deref(),
        Some("random range requires minInclusive to be less than maxExclusive")
    );
}

#[test]
fn values_that_should_be_equal_are_both_reported() {
    let mut context = new_context();
    let expected = encode_str("1");
    let actual = encode_str("two");
    aster_rt_assert_equal(Some(&mut context), Some(&expected), Some(&actual));
    assert_eq!(
        context.take_error().as_deref(),
        Some("assertion failed: values are not equal\nexpected: 1\nactual:   two")
    );
    aster_rt_assert_equal(Some(&mut context), None, Some(&actual));
    assert_eq!(
        context.take_error().as_deref(),
        Some("assertion failed: values are not equal")
    );
}

#[test]
fn operations_and_classes_of_floating_point_values_are_known() {
    assert_eq!(UnaryOperation::from_abi(0), Some(UnaryOperation::SquareRoot));
    assert_eq!(
        UnaryOperation::from_abi(3),
        Some(UnaryOperation::RoundTiesEven)
    );
    assert_eq!(
        UnaryOperation::from_abi(17),
        Some(UnaryOperation::HyperbolicTangent)
    );
    assert_eq!(UnaryOperation::from_abi(18), None);
    for value in [0.0_f64, -1.5, f64::MAX, f64::NAN, f64::INFINITY, f64::NEG_INFINITY, 5e-324] {
        let bits = value.to_bits();
        assert_eq!(aster_rt_math_predicate_double(bits, 0) == 1, value.is_nan());
        assert_eq!(aster_rt_math_predicate_double(bits, 1) == 1, value.is_infinite());
        assert_eq!(aster_rt_math_predicate_double(bits, 2) == 1, value.is_finite());
        assert_eq!(aster_rt_math_predicate_double(bits, 3), 0);
        let value = value as f32;
        let bits = value.to_bits();
        assert_eq!(aster_rt_math_predicate_float(bits, 0) == 1, value.is_nan());
        assert_eq!(aster_rt_math_predicate_float(bits, 1) == 1, value.is_infinite());
        assert_eq!(aster_rt_math_predicate_float(bits, 2) == 1, value.is_finite());
        assert_eq!(aster_rt_math_predicate_float(bits, -1), 0);
    }
}

#[test]
fn registry_is_exact_and_rejects_duplicates() {
    let signature = ForeignSignature::new(vec![ForeignType::Int], ForeignType::Int).unwrap();
    let mut registry = ForeignRegistry::new();
    registry
        .register("sample::Native", signature.clone(), 0x1000)
        .unwrap();
    assert!(registry
        .resolve_address("sample::Native", &signature)
        .is_ok());
    let duplicate = registry.register("sample::Native", signature.clone(), 0x1000);
    assert!(duplicate.unwrap_err().message().contains("duplicate"));

    let replacement = registry.register("sample::Native", signature.clone(), 0x2000);
    assert!(replacement.unwrap_err().message().contains("duplicate"));
    assert_eq!(
        registry.resolve_address("sample::Native", &signature).unwrap(),
        0x1000
    );

    let overload = ForeignSignature::new(vec![], ForeignType::Void).unwrap();
    registry
        .register("sample::Native", overload, 0x3000)
        .expect("a distinct exact signature is an overload, not a replacement");
}

#[test]
fn refused_registrations_and_lookups_say_why() {
    let refused = ForeignSignature::new(vec![ForeignType::Void], ForeignType::Int);
    assert_eq!(
        refused.unwrap_err().message(),
        "foreign parameters cannot have type `void`"
    );
    let signature = ForeignSignature::new(vec![ForeignType::Char], ForeignType::Void).unwrap();
    assert_eq!(signature.parameters(), &[ForeignType::Char]);
    assert_eq!(signature.result(), ForeignType::Void);
    let mut registry = ForeignRegistry::default();
    assert_eq!(
        registry
            .register("f", signature.clone(), 0)
            .unwrap_err()
            .message(),
        "foreign wrapper address cannot be null"
    );
    assert_eq!(
        registry
            .register("", signature.clone(), 1)
            .unwrap_err()
            .message(),
        "foreign declaration identity cannot be empty"
    );
    assert_eq!(
        registry.resolve_address("f", &signature).unwrap_err().message(),
        "missing foreign binding for `f`"
    );
    registry.register("f", signature.clone(), 1).unwrap();
    let other = ForeignSignature::new(vec![ForeignType::Char], ForeignType::Int).unwrap();
    assert_eq!(
        registry.resolve_address("f", &other).unwrap_err().message(),
        "foreign binding signature mismatch for `f`"
    );
    assert_eq!(
        registry
            .register("f", signature, 2)
            .unwrap_err()
            .message(),
        "duplicate foreign binding for `f` with the same signature"
    );
}

#[test]
fn failures_of_wrappers_are_reported() {
    for (kind, expected) in [
        (0, "foreign call failed with native status -7"),
        (1, "foreign bool result must be 0 or 1, found -7"),
        (2, "foreign char result is not a Unicode scalar: -7"),
        (3, "invalid foreign runtime state"),
    ] {
        let mut context = new_context();
        aster_rt_foreign_error(Some(&mut context), kind, -7);
        assert_eq!(context.take_error().as_deref(), Some(expected));
    }
}

#[test]
fn clocks_stop_at_the_largest_reading() {
    assert_eq!(monotonic_milliseconds(0), 0);
    assert_eq!(monotonic_milliseconds(1 << 63), i64::MAX);
    assert_eq!(unix_milliseconds(Ok(1_700_000_000_000)), 1_700_000_000_000);
    assert_eq!(unix_milliseconds(Err(5)), -5);
    assert_eq!(unix_milliseconds(Err(u128::MAX)), -i64::MAX);
}

#[test]
fn the_error_that_is_taken_is_the_first_since_the_last_one_was_taken() {
    let mut context = new_context();
    for text in ["one", "two"] {
        context.fail(text.to_string());
    }
    assert_eq!(context.take_error().as_deref(), Some("one"));
    assert_eq!(context.take_error(), None);
    for text in ["three", "four"] {
        context.fail(text.to_string());
    }
    assert_eq!(context.take_error().as_deref(), Some("three"));
}

#[test]
fn the_latest_task_runtime_is_handed_out() {
    let mut context = new_context();
    assert_eq!(context.task_runtime(), None);
    context.set_task_runtime(7);
    context.set_task_runtime(9);
    assert_eq!(context.task_runtime(), Some(9));
}

#[test]
fn the_capacity_that_is_out_is_what_is_held() {
    let mut governor = MemoryGovernor::new(100);
    let first = governor.try_acquire(40).unwrap();
    let second = governor.try_acquire(50).unwrap();
    assert!(governor.try_acquire(11).is_none());
    assert_eq!(governor.telemetry().current_capacity_bytes, 90);
    governor.release(first);
    assert_eq!(governor.telemetry().current_capacity_bytes, 50);
    governor.release(second);
    assert_eq!(governor.telemetry().current_capacity_bytes, 0);
    assert_eq!(governor.telemetry().denial_events, 1);
}

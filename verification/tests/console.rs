use std::sync::{Arc, Mutex};

use aster_runtime::console::{
    aster_rt_io_read_line, aster_rt_io_read_line_temporary, aster_rt_io_write,
    aster_rt_io_write_line, aster_rt_log, LogLevel,
};
use aster_runtime::context::{ContextIdentity, ExecutionContext, HostDevices};
use aster_runtime::memory_files::MemoryFileSystemBackend;
use aster_runtime::io::{
    strip_line_terminator, ConsoleBackend, FailingConsoleBackend, MemoryConsoleBackend,
    ReadLineResult,
};
use aster_runtime::io_error::{HostIoError, HostIoErrorKind};
use aster_runtime::object::aster_rt_temporary_scope_enter;
use aster_runtime::string::encode_str;

fn devices() -> HostDevices {
    HostDevices {
        console: Box::new(MemoryConsoleBackend::default()),
        filesystem: Box::new(MemoryFileSystemBackend::new()),
    }
}

fn new_context() -> ExecutionContext {
    ExecutionContext::new(ContextIdentity {
        persistent_arena_id: 1,
        temporary_arena_id: 2,
        dictionary_hash_k0: 3,
        dictionary_hash_k1: 4,
        dictionary_owner_id: 5,
    }, devices())
}

/// A console that the test keeps a hold of.
#[derive(Clone)]
struct Shared(Arc<Mutex<MemoryConsoleBackend>>);

impl Shared {
    fn new(input: &[u8]) -> Self {
        Shared(Arc::new(Mutex::new(MemoryConsoleBackend::new(input.to_vec()))))
    }

    fn output(&self) -> Vec<u8> {
        self.0.lock().unwrap().output()
    }
}

impl ConsoleBackend for Shared {
    fn write(&mut self, bytes: &[u8]) -> Result<(), HostIoError> {
        self.0.lock().unwrap().write(bytes)
    }

    fn flush(&mut self) -> Result<(), HostIoError> {
        self.0.lock().unwrap().flush()
    }

    fn write_error(&mut self, bytes: &[u8]) -> Result<(), HostIoError> {
        self.0.lock().unwrap().write_error(bytes)
    }

    fn flush_error(&mut self) -> Result<(), HostIoError> {
        self.0.lock().unwrap().flush_error()
    }

    fn read_line(&mut self) -> ReadLineResult {
        self.0.lock().unwrap().read_line()
    }
}

/// A console whose text appears, but cannot be flushed.
struct Unflushed;

impl ConsoleBackend for Unflushed {
    fn write(&mut self, _bytes: &[u8]) -> Result<(), HostIoError> {
        Ok(())
    }

    fn flush(&mut self) -> Result<(), HostIoError> {
        Err(HostIoError::new(HostIoErrorKind::Other, "stuck"))
    }

    fn write_error(&mut self, bytes: &[u8]) -> Result<(), HostIoError> {
        self.write(bytes)
    }

    fn flush_error(&mut self) -> Result<(), HostIoError> {
        self.flush()
    }

    fn read_line(&mut self) -> ReadLineResult {
        Ok(None)
    }
}

fn option_destination() -> Vec<u8> {
    vec![0_u8; 16]
}

fn tag(destination: &[u8]) -> i32 {
    i32::from_le_bytes(destination[0..4].try_into().unwrap())
}

fn payload_text(context: &ExecutionContext, destination: &[u8]) -> Option<String> {
    let address = u64::from_le_bytes(destination[8..16].try_into().unwrap());
    context
        .read_string(address)
        .map(|bytes| String::from_utf8(bytes).unwrap())
}

#[test]
fn strips_lf_and_crlf_but_nothing_else() {
    assert_eq!(strip_line_terminator(b"hello\n"), b"hello");
    assert_eq!(strip_line_terminator(b"hello\r\n"), b"hello");
    assert_eq!(strip_line_terminator(b"hello"), b"hello");
    assert_eq!(strip_line_terminator(b"\n"), b"");
    assert_eq!(strip_line_terminator(b"  hello  \n"), b"  hello  ");
    assert_eq!(strip_line_terminator(b"hello\r\r\n"), b"hello\r");
}

#[test]
fn memory_backend_reads_lines_and_reports_eof() {
    let mut backend = MemoryConsoleBackend::new("a\nb\r\nc".as_bytes().to_vec());
    assert_eq!(backend.read_line().unwrap(), Some(b"a\n".to_vec()));
    assert_eq!(backend.read_line().unwrap(), Some(b"b\r\n".to_vec()));
    assert_eq!(backend.read_line().unwrap(), Some(b"c".to_vec()));
    assert_eq!(backend.read_line().unwrap(), None);
    assert_eq!(backend.read_line().unwrap(), None);
}

#[test]
fn write_emits_exact_utf8_bytes_including_embedded_nul() {
    for text in ["abc", "héllo ✓", "", "a\0b"] {
        let mut context = new_context();
        let backend = Shared::new(b"");
        context.set_console_backend(Box::new(backend.clone()));
        let input = encode_str(text);
        aster_rt_io_write(Some(&mut context), Some(&input));
        assert!(context.take_error().is_none());
        assert_eq!(backend.output(), text.as_bytes());
    }
}

#[test]
fn write_line_emits_exactly_one_trailing_lf() {
    let mut context = new_context();
    let backend = Shared::new(b"");
    context.set_console_backend(Box::new(backend.clone()));
    let input = encode_str("abc");
    aster_rt_io_write_line(Some(&mut context), Some(&input));
    assert!(context.take_error().is_none());
    assert_eq!(backend.output(), b"abc\n");
}

#[test]
fn write_line_of_empty_string_emits_only_lf() {
    let mut context = new_context();
    let backend = Shared::new(b"");
    context.set_console_backend(Box::new(backend.clone()));
    let input = encode_str("");
    aster_rt_io_write_line(Some(&mut context), Some(&input));
    assert!(context.take_error().is_none());
    assert_eq!(backend.output(), b"\n");
}

#[test]
fn several_writes_accumulate_in_call_order() {
    let mut context = new_context();
    let backend = Shared::new(b"");
    context.set_console_backend(Box::new(backend.clone()));
    let a = encode_str("a");
    let b = encode_str("b");
    let c = encode_str("c");
    aster_rt_io_write(Some(&mut context), Some(&a));
    aster_rt_io_write_line(Some(&mut context), Some(&b));
    aster_rt_io_write(Some(&mut context), Some(&c));
    assert!(context.take_error().is_none());
    assert_eq!(backend.output(), b"ab\nc");
}

#[test]
fn write_reports_a_controlled_error_on_backend_failure() {
    let mut context = new_context();
    context.set_console_backend(Box::new(FailingConsoleBackend::default()));
    let input = encode_str("abc");
    aster_rt_io_write(Some(&mut context), Some(&input));
    assert!(context.take_error().is_some());
}

#[test]
fn read_line_strips_lf_and_crlf_exactly() {
    for (input, expected) in [
        ("hello\n", "hello"),
        ("hello\r\n", "hello"),
        ("\n", ""),
        ("hello", "hello"),
    ] {
        let mut context = new_context();
        context.set_console_backend(Box::new(Shared::new(input.as_bytes())));
        let mut destination = option_destination();
        aster_rt_io_read_line(Some(&mut context), Some(&mut destination), 16, 1, 0, 8);
        assert!(context.take_error().is_none());
        assert_eq!(tag(&destination), 1);
        assert_eq!(payload_text(&context, &destination).as_deref(), Some(expected));
    }
}

#[test]
fn read_line_returns_none_on_eof_without_erroring() {
    let mut context = new_context();
    context.set_console_backend(Box::new(Shared::new(b"")));
    let mut destination = option_destination();
    aster_rt_io_read_line(Some(&mut context), Some(&mut destination), 16, 1, 0, 8);
    assert!(context.take_error().is_none());
    assert_eq!(tag(&destination), 0);
    aster_rt_io_read_line(Some(&mut context), Some(&mut destination), 16, 1, 0, 8);
    assert!(context.take_error().is_none());
    assert_eq!(tag(&destination), 0);
}

#[test]
fn read_line_preserves_an_embedded_nul_within_the_line() {
    let mut context = new_context();
    context.set_console_backend(Box::new(Shared::new(b"a\0b\n")));
    let mut destination = option_destination();
    aster_rt_io_read_line(Some(&mut context), Some(&mut destination), 16, 1, 0, 8);
    assert!(context.take_error().is_none());
    assert_eq!(tag(&destination), 1);
    assert_eq!(payload_text(&context, &destination).as_deref(), Some("a\0b"));
}

#[test]
fn read_line_rejects_invalid_utf8_in_a_controlled_buffer() {
    let mut context = new_context();
    context.set_console_backend(Box::new(Shared::new(&[0xFF, b'\n'])));
    let mut destination = option_destination();
    aster_rt_io_read_line(Some(&mut context), Some(&mut destination), 16, 1, 0, 8);
    assert_eq!(
        context.take_error().as_deref(),
        Some("aster.io.ReadLine received invalid UTF-8 input")
    );
}

#[test]
fn read_line_reports_a_controlled_error_on_backend_failure() {
    let mut context = new_context();
    context.set_console_backend(Box::new(FailingConsoleBackend::default()));
    let mut destination = option_destination();
    aster_rt_io_read_line(Some(&mut context), Some(&mut destination), 16, 1, 0, 8);
    assert!(context.take_error().is_some());
}

#[test]
fn read_line_temporary_writes_the_same_shape_as_persistent() {
    let mut context = new_context();
    context.set_console_backend(Box::new(Shared::new(b"hi\n")));
    aster_rt_temporary_scope_enter(Some(&mut context));
    let mut destination = option_destination();
    aster_rt_io_read_line_temporary(Some(&mut context), Some(&mut destination), 16, 1, 0, 8);
    assert!(context.take_error().is_none());
    assert_eq!(tag(&destination), 1);
    assert_eq!(payload_text(&context, &destination).as_deref(), Some("hi"));
}

#[test]
fn independent_contexts_never_share_output_or_input() {
    let mut first = new_context();
    let first_backend = Shared::new(b"first-input\n");
    first.set_console_backend(Box::new(first_backend.clone()));
    let mut second = new_context();
    let second_backend = Shared::new(b"second-input\n");
    second.set_console_backend(Box::new(second_backend.clone()));

    let hello = encode_str("hello-from-first");
    aster_rt_io_write(Some(&mut first), Some(&hello));
    assert_eq!(first_backend.output(), b"hello-from-first");
    assert!(second_backend.output().is_empty());

    let mut destination = option_destination();
    aster_rt_io_read_line(Some(&mut second), Some(&mut destination), 16, 1, 0, 8);
    assert_eq!(
        payload_text(&second, &destination).as_deref(),
        Some("second-input")
    );
}

#[test]
fn memory_backend_captures_written_bytes() {
    let mut backend = MemoryConsoleBackend::default();
    backend.write(b"abc").unwrap();
    backend.write(b"\n").unwrap();
    assert_eq!(backend.output(), b"abc\n");
}

#[test]
fn maps_abi_levels() {
    assert_eq!(LogLevel::from_abi(0), Some(LogLevel::Log));
    assert_eq!(LogLevel::from_abi(1), Some(LogLevel::Warning));
    assert_eq!(LogLevel::from_abi(2), Some(LogLevel::Error));
    assert_eq!(LogLevel::from_abi(3), None);
    assert_eq!(LogLevel::from_abi(-1), None);
}

#[test]
fn labels_are_stable() {
    assert_eq!(LogLevel::Log.label(), "log");
    assert_eq!(LogLevel::Warning.label(), "warning");
    assert_eq!(LogLevel::Error.label(), "error");
}

#[test]
fn logs_use_the_execution_context_console() {
    let mut context = new_context();
    let console = Shared::new(b"");
    context.set_console_backend(Box::new(console.clone()));
    let message = encode_str("captured");

    aster_rt_log(Some(&mut context), LogLevel::Log as i32, Some(&message));
    aster_rt_log(Some(&mut context), LogLevel::Error as i32, Some(&message));

    assert_eq!(console.output(), b"[log] captured\n[error] captured\n");
}

#[test]
fn logging_says_what_is_wrong_with_a_message_and_records_nothing() {
    let mut context = new_context();
    let console = Shared::new(b"");
    context.set_console_backend(Box::new(console.clone()));
    let message = encode_str("text");
    aster_rt_log(Some(&mut context), 7, Some(&message));
    aster_rt_log(Some(&mut context), 1, None);
    aster_rt_log(Some(&mut context), 1, Some(&message));
    assert_eq!(
        console.output(),
        b"[error] aster-runtime: invalid log level 7\n\
[error] aster-runtime: log message is not a valid ABI string\n\
[warning] text\n"
            .to_vec()
    );
    assert!(context.take_error().is_none());

    context.set_console_backend(Box::new(FailingConsoleBackend::default()));
    aster_rt_log(Some(&mut context), 0, Some(&message));
    assert!(context.take_error().is_none());
}

#[test]
fn every_way_a_write_fails_has_its_report() {
    let message = encode_str("text");
    let mut context = new_context();
    aster_rt_io_write(Some(&mut context), None);
    assert_eq!(
        context.take_error().as_deref(),
        Some("aster.io.Write received an invalid UTF-8 string reference")
    );
    context.set_console_backend(Box::new(FailingConsoleBackend::default()));
    aster_rt_io_write_line(Some(&mut context), Some(&message));
    assert_eq!(
        context.take_error().as_deref(),
        Some("aster.io.WriteLine failed: simulated console write failure")
    );
    context.set_console_backend(Box::new(Unflushed));
    aster_rt_io_write(Some(&mut context), Some(&message));
    assert_eq!(
        context.take_error().as_deref(),
        Some("aster.io.Write failed to flush: stuck")
    );
    aster_rt_io_write(None, Some(&message));
}

#[test]
fn every_way_a_line_cannot_be_stored_has_its_report() {
    let cases: [(i32, i32, &str); 3] = [
        (-1, 8, "aster.io.ReadLine received a negative layout size"),
        (16, -8, "aster.io.ReadLine received a negative layout size"),
        (15, 8, "aster.io.ReadLine destination is too small for its payload"),
    ];
    for (total, offset, expected) in cases {
        let mut context = new_context();
        context.set_console_backend(Box::new(Shared::new(b"line\n")));
        let mut destination = option_destination();
        aster_rt_io_read_line(Some(&mut context), Some(&mut destination), total, 1, 0, offset);
        assert_eq!(context.take_error().as_deref(), Some(expected));
        assert_eq!(destination, option_destination());
    }
    let mut context = new_context();
    aster_rt_io_read_line(Some(&mut context), None, 16, 1, 0, 8);
    assert_eq!(
        context.take_error().as_deref(),
        Some("aster.io.ReadLine received a null destination")
    );
    let mut destination = option_destination();
    context.set_console_backend(Box::new(FailingConsoleBackend::default()));
    aster_rt_io_read_line(Some(&mut context), Some(&mut destination), 16, 1, 0, 8);
    assert_eq!(
        context.take_error().as_deref(),
        Some("aster.io.ReadLine failed: simulated console read failure")
    );
}

#[test]
fn a_context_uses_the_device_it_was_made_with_until_another_is_injected() {
    let first = Shared::new(b"");
    let second = Shared::new(b"");
    let mut with_first = devices();
    with_first.console = Box::new(first.clone());
    let mut context = ExecutionContext::new(
        ContextIdentity {
            persistent_arena_id: 1,
            temporary_arena_id: 2,
            dictionary_hash_k0: 3,
            dictionary_hash_k1: 4,
            dictionary_owner_id: 5,
        },
        with_first,
    );
    aster_rt_io_write(Some(&mut context), Some(&encode_str("one")));
    context.set_console_backend(Box::new(second.clone()));
    aster_rt_io_write(Some(&mut context), Some(&encode_str("two")));
    assert_eq!(first.output(), b"one");
    assert_eq!(second.output(), b"two");
}

#[test]
fn owners_of_one_console_write_to_one_output() {
    let backend = Shared::new(b"one\ntwo\n");
    let mut left = backend.clone();
    let mut right = backend.clone();
    left.write(b"a").unwrap();
    right.write(b"b").unwrap();
    left.flush().unwrap();
    assert_eq!(right.read_line().unwrap(), Some(b"one\n".to_vec()));
    assert_eq!(left.read_line().unwrap(), Some(b"two\n".to_vec()));
    left.write(b"c").unwrap();
    assert_eq!(backend.output(), b"abc");
    assert_eq!(backend.output(), b"abc");
}

#[test]
fn an_injected_console_gets_what_comes_later_and_the_earlier_one_nothing() {
    let first = Shared::new(b"");
    let second = Shared::new(b"");
    let other = Shared::new(b"");
    let mut context = new_context();
    let mut elsewhere = new_context();
    elsewhere.set_console_backend(Box::new(other.clone()));
    context.set_console_backend(Box::new(first.clone()));
    let text = encode_str("x");
    aster_rt_io_write(Some(&mut context), Some(&text));
    context.set_console_backend(Box::new(second.clone()));
    aster_rt_io_write_line(Some(&mut context), Some(&text));
    aster_rt_io_write(Some(&mut context), Some(&text));
    assert_eq!(first.output(), b"x");
    assert_eq!(second.output(), b"x\nx");
    assert_eq!(other.output(), b"");
}

#[test]
fn a_captured_console_is_read_from() {
    let mut context = new_context();
    context.capture_console(MemoryConsoleBackend::new(b"line\n".to_vec()));
    let mut out = vec![0u8; 16];
    aster_rt_io_read_line(Some(&mut context), Some(&mut out), 16, 1, 2, 8);
    let address = u64::from_le_bytes(out[8..].try_into().unwrap());
    assert_eq!(context.read_string(address).unwrap(), b"line");
    assert!(context.take_error().is_none());
}

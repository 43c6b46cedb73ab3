use std::cell::Cell;
use std::io::Read;
use std::rc::Rc;
use std::sync::{Arc, Mutex};

use aster_runtime::context::{ContextIdentity, ExecutionContext, HostDevices};
use aster_runtime::io::MemoryConsoleBackend;
use aster_runtime::files::{
    aster_rt_io_append_all_text, aster_rt_io_list_directories, aster_rt_io_list_files,
    aster_rt_io_list_files_temporary, aster_rt_io_path_bool, aster_rt_io_read_all_text,
    aster_rt_io_read_all_text_temporary, aster_rt_io_write_all_text, result_io_error_layout_fits,
};
use aster_runtime::filesystem::{
    classify, no_append, no_listing, no_path_operation, read_bounded_regular_file,
    FileSystemBackend, FileSystemError, MAX_FILE_BYTES,
};
use aster_runtime::host_files::{
    creation_reply, deletion_reply, existence_reply, existing_reply, takes_entry,
};
use aster_runtime::io_error::{HostIoError, HostIoErrorKind, PortableIoErrorKind};
use aster_runtime::memory_files::{
    FailingFileSystemBackend, MemoryFileSystemBackend, PartialWriteFailureFileSystemBackend,
};
use aster_runtime::ordering::sort_texts;
use aster_runtime::paths::is_direct_child;
use aster_runtime::string::encode_str;

fn devices() -> HostDevices {
    HostDevices {
        console: Box::new(MemoryConsoleBackend::default()),
        filesystem: Box::new(MemoryFileSystemBackend::new()),
    }
}

fn new_context() -> ExecutionContext {
    ExecutionContext::new(ContextIdentity {
        persistent_arena_id: 1,
        temporary_arena_id: 2,
        dictionary_hash_k0: 3,
        dictionary_hash_k1: 4,
        dictionary_owner_id: 5,
    }, devices())
}

#[test]
fn result_layout_validation_rejects_every_out_of_bounds_payload_shape() {
    let size = size_of::<usize>();
    assert!(result_io_error_layout_fits(size, 32, 8, 16, 0, 4));
    assert!(!result_io_error_layout_fits(size, 3, 0, 0, 0, 0));
    assert!(!result_io_error_layout_fits(size, 12, 8, 0, 0, 4));
    assert!(!result_io_error_layout_fits(size, 20, 0, 16, 0, 4));
    assert!(!result_io_error_layout_fits(size, 20, 0, 8, 9, 4));
    assert!(!result_io_error_layout_fits(size, 20, 0, 8, 0, 9));
    assert!(!result_io_error_layout_fits(
        size,
        usize::MAX,
        usize::MAX,
        0,
        0,
        0,
    ));
}

#[test]
fn memory_backend_reads_back_a_seeded_file_exactly() {
    let mut backend = MemoryFileSystemBackend::new().with_file("a.txt", b"hello");
    let bytes = backend.read_all("a.txt", 1024).expect("file exists");
    assert_eq!(bytes, b"hello");
}

#[test]
fn memory_backend_reports_not_file_for_a_directory_entry() {
    let mut backend = MemoryFileSystemBackend::new().with_directory("dir");
    let error = backend
        .read_all("dir", 1024)
        .expect_err("directory is not a file");
    assert!(matches!(error, FileSystemError::NotFile));
    let error = backend
        .write_all("dir", b"x")
        .expect_err("cannot write over a directory");
    assert!(matches!(error, FileSystemError::NotFile));
}

#[test]
fn memory_backend_reports_not_found_for_a_missing_path() {
    let mut backend = MemoryFileSystemBackend::new();
    let error = backend
        .read_all("missing.txt", 1024)
        .expect_err("no such file");
    assert!(matches!(error, FileSystemError::Io(e) if e.kind == HostIoErrorKind::NotFound));
}

#[test]
fn memory_backend_lists_only_direct_regular_files_in_ordinal_order() {
    let mut backend = MemoryFileSystemBackend::new()
        .with_directory("root")
        .with_file("root/b.txt", b"b")
        .with_file("root/A.txt", b"a")
        .with_file("root/a.txt", b"a")
        .with_file("root/Ã©.txt", b"unicode")
        .with_file("root/non_text.bin", &[0_u8, 255])
        .with_directory("root/Sub")
        .with_file("root/Sub/nested.txt", b"nested")
        .with_symlink("root/link")
        .with_other("root/pipe");

    let paths = backend
        .list_files("root", 100, 10_000)
        .expect("directory should enumerate");
    assert_eq!(
        paths,
        vec![
            "root/A.txt",
            "root/a.txt",
            "root/b.txt",
            "root/non_text.bin",
            "root/Ã©.txt",
        ]
    );
}

#[test]
fn memory_backend_list_files_rejects_wrong_kind_and_enforces_limits() {
    let mut file = MemoryFileSystemBackend::new().with_file("file", b"content");
    assert!(matches!(
        file.list_files("file", 10, 100),
        Err(FileSystemError::NotDirectory)
    ));

    let mut missing = MemoryFileSystemBackend::new();
    assert!(matches!(
        missing.list_files("missing", 10, 100),
        Err(FileSystemError::Io(error)) if error.kind == HostIoErrorKind::NotFound
    ));

    let mut limited = MemoryFileSystemBackend::new()
        .with_directory("root")
        .with_file("root/a", b"")
        .with_file("root/b", b"");
    assert!(matches!(
        limited.list_files("root", 1, 100),
        Err(FileSystemError::LimitExceeded)
    ));
    assert!(matches!(
        limited.list_files("root", 10, 5),
        Err(FileSystemError::LimitExceeded)
    ));
}

#[test]
fn memory_backend_caps_reads_at_the_probe_limit_simulating_a_growing_file() {
    let content = vec![b'x'; 100];
    let mut backend = MemoryFileSystemBackend::new().with_file("big.txt", &content);
    let bytes = backend
        .read_all("big.txt", 10)
        .expect("read is capped, not rejected");
    assert_eq!(bytes.len(), 10);
}

#[test]
fn memory_backend_write_creates_and_truncates() {
    let mut backend = MemoryFileSystemBackend::new().with_file("a.txt", b"old-content");
    backend.write_all("a.txt", b"new").expect("write succeeds");
    assert_eq!(backend.read("a.txt"), Some(b"new".to_vec()));
    backend
        .write_all("b.txt", b"created")
        .expect("write creates a new entry");
    assert_eq!(backend.read("b.txt"), Some(b"created".to_vec()));
}

#[test]
fn memory_backend_practical_file_and_directory_lifecycle_is_non_recursive() {
    let mut backend = MemoryFileSystemBackend::new().with_directory("root");
    assert!(backend
        .create_directory("root/a")
        .expect("create directory"));
    assert!(!backend
        .create_directory("root/a")
        .expect("existing directory"));
    assert!(backend
        .directory_exists("root/a")
        .expect("directory exists"));
    assert!(!backend.file_exists("root/a").expect("wrong kind is false"));

    backend
        .append_all("root/a/data.txt", b"one")
        .expect("append creates");
    backend
        .append_all("root/a/data.txt", b"two")
        .expect("append extends");
    assert_eq!(backend.read("root/a/data.txt"), Some(b"onetwo".to_vec()));
    assert_eq!(
        backend
            .list_directories("root", 10, 1_000)
            .expect("list directories"),
        vec!["root/a"]
    );
    assert!(matches!(
        backend.delete_directory("root/a"),
        Err(FileSystemError::Io(error)) if error.kind == HostIoErrorKind::DirectoryNotEmpty
    ));
    assert!(backend.delete_file("root/a/data.txt").expect("delete file"));
    assert!(!backend
        .delete_file("root/a/data.txt")
        .expect("missing is false"));
    assert!(backend
        .delete_directory("root/a")
        .expect("delete empty directory"));
    assert!(!backend
        .delete_directory("root/a")
        .expect("missing is false"));
}

#[test]
fn failing_backend_reports_the_configured_error_kind_for_both_operations() {
    let mut backend = FailingFileSystemBackend::new(HostIoErrorKind::PermissionDenied);
    let read_error = backend
        .read_all("x.txt", 1024)
        .expect_err("simulated failure");
    assert!(
        matches!(read_error, FileSystemError::Io(e) if e.kind == HostIoErrorKind::PermissionDenied)
    );
    let write_error = backend
        .write_all("x.txt", b"x")
        .expect_err("simulated failure");
    assert!(
        matches!(write_error, FileSystemError::Io(e) if e.kind == HostIoErrorKind::PermissionDenied)
    );
}

#[test]
fn partial_write_failure_backend_stores_content_but_still_reports_failure() {
    let mut backend = PartialWriteFailureFileSystemBackend::new();
    let error = backend
        .write_all("a.txt", b"partial")
        .expect_err("this backend always reports failure");
    assert!(matches!(error, FileSystemError::Io(_)));
    assert_eq!(backend.read("a.txt"), Some(b"partial".to_vec()));
}

#[test]
fn classify_maps_not_file_to_the_synthetic_zero_os_code_category() {
    let (kind, os_code) = classify(FileSystemError::NotFile);
    assert_eq!(kind, PortableIoErrorKind::NotFile);
    assert_eq!(os_code, 0);
}

#[test]
fn classify_maps_a_real_io_error_through_classify_io_error() {
    let (kind, _) = classify(FileSystemError::Io(HostIoError::of_kind(
        HostIoErrorKind::NotFound,
    )));
    assert_eq!(kind, PortableIoErrorKind::NotFound);
}

struct CountingReader {
    reads: Rc<Cell<usize>>,
    bytes: std::io::Cursor<Vec<u8>>,
}

impl Read for CountingReader {
    fn read(&mut self, buffer: &mut [u8]) -> std::io::Result<usize> {
        self.reads.set(self.reads.get() + 1);
        self.bytes.read(buffer)
    }
}

/// Reads as the decision says.
fn read_as_decided(
    reader: CountingReader,
    known_regular_len: Option<u64>,
    probe_limit: u64,
) -> Result<Vec<u8>, FileSystemError> {
    let most = read_bounded_regular_file(known_regular_len, probe_limit)?;
    let mut buffer = Vec::new();
    reader.take(most).read_to_end(&mut buffer).unwrap();
    Ok(buffer)
}

#[test]
fn regular_file_preflight_uses_the_probe_threshold_without_reading() {
    for known_length in [50, 51] {
        let reads = Rc::new(Cell::new(0));
        let reader = CountingReader {
            reads: Rc::clone(&reads),
            bytes: std::io::Cursor::new(vec![b'x'; 51]),
        };
        let error = read_as_decided(reader, Some(known_length), 50)
            .expect_err("metadata at or beyond the probe rejects immediately");
        assert!(matches!(error, FileSystemError::LimitExceeded));
        assert_eq!(reads.get(), 0);
    }

    let reads = Rc::new(Cell::new(0));
    let reader = CountingReader {
        reads: Rc::clone(&reads),
        bytes: std::io::Cursor::new(vec![b'x'; 49]),
    };
    let bytes = read_as_decided(reader, Some(49), 50)
        .expect("one byte below the probe remains allowed");
    assert_eq!(bytes.len(), 49);
    assert!(reads.get() > 0);
}

/// A filesystem that the test keeps a hold of.
#[derive(Clone)]
struct Shared(Arc<Mutex<MemoryFileSystemBackend>>);

impl FileSystemBackend for Shared {
    fn read_all(&mut self, path: &str, probe_limit: u64) -> Result<Vec<u8>, FileSystemError> {
        self.0.lock().unwrap().read_all(path, probe_limit)
    }

    fn write_all(&mut self, path: &str, content: &[u8]) -> Result<(), FileSystemError> {
        self.0.lock().unwrap().write_all(path, content)
    }

    fn append_all(&mut self, path: &str, content: &[u8]) -> Result<(), FileSystemError> {
        self.0.lock().unwrap().append_all(path, content)
    }

    fn delete_file(&mut self, path: &str) -> Result<bool, FileSystemError> {
        self.0.lock().unwrap().delete_file(path)
    }

    fn list_files(
        &mut self,
        directory: &str,
        max_entries: usize,
        max_total_bytes: usize,
    ) -> Result<Vec<String>, FileSystemError> {
        self.0.lock().unwrap().list_files(directory, max_entries, max_total_bytes)
    }

    fn list_directories(
        &mut self,
        directory: &str,
        max_entries: usize,
        max_total_bytes: usize,
    ) -> Result<Vec<String>, FileSystemError> {
        self.0.lock().unwrap().list_directories(directory, max_entries, max_total_bytes)
    }

    fn file_exists(&mut self, path: &str) -> Result<bool, FileSystemError> {
        self.0.lock().unwrap().file_exists(path)
    }

    fn directory_exists(&mut self, path: &str) -> Result<bool, FileSystemError> {
        self.0.lock().unwrap().directory_exists(path)
    }

    fn create_directory(&mut self, path: &str) -> Result<bool, FileSystemError> {
        self.0.lock().unwrap().create_directory(path)
    }

    fn delete_directory(&mut self, path: &str) -> Result<bool, FileSystemError> {
        self.0.lock().unwrap().delete_directory(path)
    }
}

/// A filesystem that replies to every listing with the same paths.
struct Listing(Vec<String>);

impl FileSystemBackend for Listing {
    fn read_all(&mut self, _path: &str, _probe_limit: u64) -> Result<Vec<u8>, FileSystemError> {
        Err(FileSystemError::NotFile)
    }

    fn write_all(&mut self, _path: &str, _content: &[u8]) -> Result<(), FileSystemError> {
        Err(FileSystemError::InvalidPath)
    }

    fn list_files(
        &mut self,
        _directory: &str,
        _max_entries: usize,
        _max_total_bytes: usize,
    ) -> Result<Vec<String>, FileSystemError> {
        Ok(self.0.clone())
    }

    fn append_all(&mut self, _path: &str, _content: &[u8]) -> Result<(), FileSystemError> {
        Err(no_append())
    }

    fn list_directories(
        &mut self,
        _directory: &str,
        _max_entries: usize,
        _max_total_bytes: usize,
    ) -> Result<Vec<String>, FileSystemError> {
        Err(no_listing())
    }

    fn file_exists(&mut self, _path: &str) -> Result<bool, FileSystemError> {
        Err(no_path_operation())
    }

    fn directory_exists(&mut self, _path: &str) -> Result<bool, FileSystemError> {
        Err(no_path_operation())
    }

    fn create_directory(&mut self, _path: &str) -> Result<bool, FileSystemError> {
        Err(no_path_operation())
    }

    fn delete_file(&mut self, _path: &str) -> Result<bool, FileSystemError> {
        Err(no_path_operation())
    }

    fn delete_directory(&mut self, _path: &str) -> Result<bool, FileSystemError> {
        Err(no_path_operation())
    }
}

const TAGS: [i32; 9] = [100, 101, 102, 103, 104, 105, 106, 107, 108];

/// Where the parts of the results in these tests are: the tag, the value at 8, the
/// category at 16 and the code at 20.
fn blank() -> Vec<u8> {
    vec![0xEE; 24]
}

fn number(bytes: &[u8], at: usize) -> i32 {
    i32::from_le_bytes(bytes[at..at + 4].try_into().unwrap())
}

fn address(bytes: &[u8]) -> u64 {
    u64::from_le_bytes(bytes[8..16].try_into().unwrap())
}

fn read_text(context: &mut ExecutionContext, path: &str) -> Vec<u8> {
    let mut out = blank();
    let path = encode_str(path);
    aster_rt_io_read_all_text(
        Some(context),
        Some(&path),
        Some(&mut out),
        24,
        1,
        2,
        8,
        16,
        0,
        4,
        Some(&TAGS),
    );
    out
}

fn write_text(context: &mut ExecutionContext, path: &str, content: &str, append: bool) -> Vec<u8> {
    let mut out = blank();
    let path = encode_str(path);
    let content = encode_str(content);
    let write = if append {
        aster_rt_io_append_all_text
    } else {
        aster_rt_io_write_all_text
    };
    write(
        Some(context),
        Some(&path),
        Some(&content),
        Some(&mut out),
        24,
        1,
        2,
        8,
        16,
        0,
        4,
        Some(&TAGS),
    );
    out
}

fn ask(context: &mut ExecutionContext, operation: i32, path: &str) -> Vec<u8> {
    let mut out = blank();
    let path = encode_str(path);
    aster_rt_io_path_bool(
        Some(context),
        operation,
        Some(&path),
        Some(&mut out),
        24,
        1,
        2,
        8,
        16,
        0,
        4,
        Some(&TAGS),
    );
    out
}

fn list(context: &mut ExecutionContext, directory: &str) -> (Vec<u8>, Option<Vec<String>>) {
    let mut out = blank();
    let directory = encode_str(directory);
    let array = aster_rt_io_list_files(
        Some(context),
        Some(&directory),
        Some(&mut out),
        24,
        1,
        2,
        8,
        16,
        0,
        4,
        Some(&TAGS),
    );
    let texts = array.map(|array| {
        assert_eq!(address(&out), array.address);
        (0..array.length as u64)
            .map(|i| {
                let slot = context.read_memory(array.data + 8 * i, 8).unwrap();
                let text = u64::from_le_bytes(slot.try_into().unwrap());
                String::from_utf8(context.read_string(text).unwrap()).unwrap()
            })
            .collect()
    });
    (out, texts)
}

#[test]
fn a_written_text_is_read_back_and_its_length_is_reported() {
    let files = Shared(Arc::new(Mutex::new(MemoryFileSystemBackend::new())));
    let mut context = new_context();
    context.set_filesystem_backend(Box::new(files.clone()));
    let out = write_text(&mut context, "a.txt", "Olá", false);
    assert_eq!((number(&out, 0), number(&out, 8)), (1, 4));
    let out = write_text(&mut context, "a.txt", "!", true);
    assert_eq!((number(&out, 0), number(&out, 8)), (1, 1));
    assert_eq!(
        files.0.lock().unwrap().read("a.txt"),
        Some("Olá!".as_bytes().to_vec())
    );
    let out = read_text(&mut context, "a.txt");
    assert_eq!(number(&out, 0), 1);
    assert_eq!(
        context.read_string(address(&out)),
        Some("Olá!".as_bytes().to_vec())
    );
    assert!(context.take_error().is_none());
}

#[test]
fn every_category_of_error_reaches_the_program() {
    let files = MemoryFileSystemBackend::new()
        .with_directory("dir")
        .with_file("bytes", &[0xFF])
        .with_file("large", &vec![b'x'; MAX_FILE_BYTES as usize + 1]);
    let mut context = new_context();
    context.set_filesystem_backend(Box::new(files));
    for (path, category) in [
        ("missing", 100),
        ("", 103),
        ("a\0b", 103),
        ("bytes", 104),
        ("dir", 105),
        ("large", 107),
    ] {
        let out = read_text(&mut context, path);
        assert_eq!((number(&out, 0), number(&out, 16), number(&out, 20)), (2, category, 0));
        assert_eq!(&out[4..16], &[0; 12]);
    }
    let mut context = new_context();
    context.set_filesystem_backend(Box::new(FailingFileSystemBackend::new(
        HostIoErrorKind::PermissionDenied,
    )));
    assert_eq!(number(&read_text(&mut context, "x"), 16), 101);
    assert_eq!(number(&ask(&mut context, 2, "x"), 16), 101);
    context.set_filesystem_backend(Box::new(FailingFileSystemBackend::new(
        HostIoErrorKind::AlreadyExists,
    )));
    assert_eq!(number(&write_text(&mut context, "x", "", false), 16), 102);
    assert_eq!(number(&write_text(&mut context, "x", "", true), 16), 108);
    assert!(context.take_error().is_none());
}

#[test]
fn questions_about_paths_are_answered() {
    let files = MemoryFileSystemBackend::new()
        .with_directory("dir")
        .with_file("file", b"");
    let mut context = new_context();
    context.set_filesystem_backend(Box::new(files));
    for (operation, path, answer) in [
        (0, "file", 1),
        (0, "dir", 0),
        (1, "dir", 1),
        (2, "dir/new", 1),
        (2, "dir/new", 0),
        (4, "dir/new", 1),
        (3, "file", 1),
        (3, "file", 0),
    ] {
        let out = ask(&mut context, operation, path);
        assert_eq!(number(&out, 0), 1);
        assert_eq!(out[8], answer);
    }
    assert_eq!(number(&ask(&mut context, 3, "dir"), 16), 105);
    assert_eq!(ask(&mut context, 5, "dir"), blank());
    assert_eq!(
        context.take_error().as_deref(),
        Some("aster.io path operation received an invalid operation code")
    );
}

#[test]
fn a_listing_is_sorted_checked_and_stored() {
    let mut context = new_context();
    context.set_filesystem_backend(Box::new(Listing(vec![
        "b".to_string(),
        "é".to_string(),
        "B".to_string(),
        "b".to_string(),
        "ba".to_string(),
    ])));
    let (out, texts) = list(&mut context, "root");
    assert_eq!(number(&out, 0), 1);
    assert_eq!(texts.unwrap(), ["B", "b", "b", "ba", "é"]);

    context.set_filesystem_backend(Box::new(Listing(Vec::new())));
    let (out, texts) = list(&mut context, "root");
    assert_eq!(number(&out, 0), 1);
    assert!(texts.unwrap().is_empty());

    context.set_filesystem_backend(Box::new(Listing(vec!["a".to_string(), String::new()])));
    let (out, texts) = list(&mut context, "root");
    assert_eq!((number(&out, 0), number(&out, 16)), (2, 103));
    assert!(texts.is_none());

    context.set_filesystem_backend(Box::new(Listing(vec!["a".to_string(); 100_001])));
    let (out, _) = list(&mut context, "root");
    assert_eq!((number(&out, 0), number(&out, 16)), (2, 107));

    let large = "x".repeat(40_000_000);
    context.set_filesystem_backend(Box::new(Listing(vec![large.clone(), large])));
    let (out, _) = list(&mut context, "root");
    assert_eq!((number(&out, 0), number(&out, 16)), (2, 107));
    assert!(context.take_error().is_none());
}

#[test]
fn what_generated_code_must_not_pass_has_its_report() {
    let mut context = new_context();
    let path = encode_str("a");
    let mut out = blank();
    aster_rt_io_read_all_text(
        Some(&mut context),
        Some(&path),
        None,
        24,
        1,
        2,
        8,
        16,
        0,
        4,
        Some(&TAGS),
    );
    assert_eq!(
        context.take_error().as_deref(),
        Some("aster.io.ReadAllText received a null destination")
    );
    for (total, kind, tags, text, expected) in [
        (-1, 0, true, true, "received a negative layout size"),
        (24, 5, true, true, "received a malformed Result layout"),
        (24, 0, false, true, "received a malformed IOErrorKind tag layout"),
        (24, 0, true, false, "received an invalid UTF-8 string reference"),
    ] {
        aster_rt_io_read_all_text_temporary(
            Some(&mut context),
            if text { Some(&path) } else { None },
            Some(&mut out),
            total,
            1,
            2,
            8,
            16,
            kind,
            4,
            if tags { Some(&TAGS) } else { None },
        );
        assert_eq!(
            context.take_error().unwrap(),
            format!("aster.io.ReadAllText {expected}")
        );
        aster_rt_io_list_files_temporary(
            Some(&mut context),
            if text { Some(&path) } else { None },
            Some(&mut out),
            total,
            1,
            2,
            8,
            16,
            kind,
            4,
            if tags { Some(&TAGS) } else { None },
        );
        assert_eq!(
            context.take_error().unwrap(),
            format!("aster.io directory listing {expected}")
        );
        assert_eq!(out, blank());
    }
    for (total, kind, tags, text, expected) in [
        (24, -1, true, true, "received invalid layout metadata"),
        (24, 5, true, true, "received a malformed Result layout"),
        (24, 0, false, true, "received invalid error metadata"),
        (24, 0, true, false, "received invalid string data"),
    ] {
        aster_rt_io_append_all_text(
            Some(&mut context),
            if text { Some(&path) } else { None },
            Some(&path),
            Some(&mut out),
            total,
            1,
            2,
            8,
            16,
            kind,
            4,
            if tags { Some(&TAGS) } else { None },
        );
        assert_eq!(
            context.take_error().unwrap(),
            format!("aster.io.AppendAllText {expected}")
        );
        aster_rt_io_path_bool(
            Some(&mut context),
            0,
            if text { Some(&path) } else { None },
            Some(&mut out),
            total,
            1,
            2,
            8,
            16,
            kind,
            4,
            if tags { Some(&TAGS) } else { None },
        );
        assert_eq!(
            context.take_error().unwrap(),
            format!("aster.io path operation {expected}")
        );
        assert_eq!(out, blank());
    }
    aster_rt_io_list_directories(
        Some(&mut context),
        Some(&path),
        Some(&mut out),
        24,
        1,
        2,
        8,
        16,
        0,
        4,
        Some(&TAGS),
    );
    assert!(context.take_error().is_none());
    assert_eq!(&out[0..4], &2_i32.to_le_bytes());
    assert_eq!(&out[16..20], &TAGS[0].to_le_bytes());
}

#[test]
fn names_of_paths_ignore_repeated_slashes_and_dots() {
    for (path, directory, expected) in [
        ("root/a", "root", true),
        ("root//a/", "root", true),
        ("root/./a", "root/", true),
        ("./root/a", "root", false),
        ("./root/a", "./root", true),
        ("/root/a", "root", false),
        ("/root/a", "/root", true),
        ("a", "", true),
        ("/a", "/", true),
        ("", "", false),
        ("root/a/b", "root", false),
    ] {
        assert_eq!(
            is_direct_child(path.as_bytes(), directory.as_bytes()),
            expected,
            "{path} below {directory}"
        );
        assert_eq!(
            std::path::Path::new(path).parent() == Some(std::path::Path::new(directory)),
            expected
        );
    }
}

#[test]
fn texts_sort_by_their_bytes() {
    let mut given: Vec<String> = ["z", "", "é", "Z", "a", "ab", "a", "\u{10FFFF}", "\u{FFFD}"]
        .iter()
        .map(|text| text.to_string())
        .collect();
    let sorted = sort_texts(given.clone());
    given.sort();
    assert_eq!(sorted, given);
}

#[test]
fn replies_of_the_host_are_judged() {
    let error = |kind| HostIoError::of_kind(kind);
    assert!(matches!(existence_reply(Ok(true)), Ok(true)));
    assert!(matches!(
        existence_reply(Err(error(HostIoErrorKind::NotFound))),
        Ok(false)
    ));
    assert!(matches!(
        existence_reply(Err(error(HostIoErrorKind::PermissionDenied))),
        Err(FileSystemError::Io(_))
    ));
    assert!(matches!(creation_reply(Ok(())), Some(Ok(true))));
    assert!(creation_reply(Err(error(HostIoErrorKind::AlreadyExists))).is_none());
    assert!(matches!(
        creation_reply(Err(error(HostIoErrorKind::NotFound))),
        Some(Err(FileSystemError::Io(_)))
    ));
    assert!(matches!(existing_reply(Ok(true)), Ok(false)));
    assert!(matches!(
        existing_reply(Ok(false)),
        Err(FileSystemError::NotDirectory)
    ));
    assert!(matches!(
        existing_reply(Err(error(HostIoErrorKind::Other))),
        Err(FileSystemError::Io(_))
    ));
    assert!(matches!(deletion_reply(Ok(()), false, false), Ok(true)));
    assert!(matches!(
        deletion_reply(Err(error(HostIoErrorKind::NotFound)), true, false),
        Ok(false)
    ));
    assert!(matches!(
        deletion_reply(Err(error(HostIoErrorKind::Other)), true, false),
        Err(FileSystemError::NotFile)
    ));
    assert!(matches!(
        deletion_reply(Err(error(HostIoErrorKind::Other)), true, true),
        Err(FileSystemError::NotDirectory)
    ));
    assert!(matches!(
        deletion_reply(Err(error(HostIoErrorKind::Other)), false, true),
        Err(FileSystemError::Io(_))
    ));
    assert!(takes_entry(false, true, false, false));
    assert!(!takes_entry(true, true, false, false));
    assert!(!takes_entry(false, true, false, true));
    assert!(takes_entry(false, false, true, true));
}

#[test]
fn a_written_file_is_read_back_and_appending_continues_it() {
    let mut files = MemoryFileSystemBackend::new().with_file("other", b"kept");
    assert!(files.write_all("notes", b"first").is_ok());
    assert!(files.append_all("notes", b" second").is_ok());
    assert_eq!(files.read_all("notes", 64).ok(), Some(b"first second".to_vec()));
    assert_eq!(files.read_all("notes", 5).ok(), Some(b"first".to_vec()));
    assert_eq!(files.read("other"), Some(b"kept".to_vec()));
    assert!(files.write_all("notes", b"again").is_ok());
    assert_eq!(files.read("notes"), Some(b"again".to_vec()));
}

#[test]
fn a_write_leaves_what_is_no_regular_file_as_it_is() {
    let mut files = MemoryFileSystemBackend::new()
        .with_other("pipe")
        .with_symlink("link")
        .with_directory("folder");
    for path in ["pipe", "link", "folder"] {
        assert!(matches!(
            files.write_all(path, b"x"),
            Err(FileSystemError::NotFile)
        ));
        assert!(matches!(
            files.append_all(path, b"x"),
            Err(FileSystemError::NotFile)
        ));
        assert_eq!(files.read(path), None);
    }
}

//! Filesystem I/O backing the text and directory operations of `aster.io`.
//!
//! [`FileSystemBackend`] is the injectable seam. Each context owns its backend.
//! The host opens, reads or writes, and closes a file entirely within one
//! operation, so no handle ever crosses this boundary.

use vstd::prelude::*;
use vstd::utf8::*;

use crate::io_error::{
    classify_io_error, portable_kind, HostIoError, HostIoErrorKind, PortableIoErrorKind,
};

verus! {

/// The fixed per-operation size limit for `ReadAllText` and `WriteAllText`.
pub const MAX_FILE_BYTES: u64 = 67_108_864;

/// Fixed limits for one directory listing.
pub const MAX_LIST_FILES: usize = 100_000;

pub const MAX_LIST_PATH_BYTES: usize = 67_108_864;

/// A filesystem operation's failure, ahead of classification into a
/// [`PortableIoErrorKind`].
#[derive(Debug)]
pub enum FileSystemError {
    Io(HostIoError),
    NotFile,
    NotDirectory,
    InvalidPath,
    LimitExceeded,
}

/// What can be asked about a path, or done to it.
#[derive(Clone, Copy, Debug, PartialEq, Eq, Structural)]
pub enum PathOperation {
    FileExists,
    DirectoryExists,
    CreateDirectory,
    DeleteFile,
    DeleteDirectory,
}

/// One thing that a filesystem was asked to do, and what it replied.
#[verifier::ext_equal]
#[allow(inconsistent_fields)]
pub enum FileCall {
    ReadAll {
        path: Seq<char>,
        probe_limit: u64,
        reply: Result<Seq<u8>, FileSystemError>,
    },
    WriteAll {
        append: bool,
        path: Seq<char>,
        content: Seq<u8>,
        reply: Result<(), FileSystemError>,
    },
    List {
        directories: bool,
        directory: Seq<char>,
        max_entries: usize,
        max_total_bytes: usize,
        reply: Result<Seq<Seq<char>>, FileSystemError>,
    },
    Path { operation: PathOperation, path: Seq<char>, reply: Result<bool, FileSystemError> },
}

/// A reply that holds the content of a file.
pub open spec fn content_reply(reply: Result<Vec<u8>, FileSystemError>) -> Result<
    Seq<u8>,
    FileSystemError,
> {
    match reply {
        Ok(bytes) => Ok(bytes@),
        Err(error) => Err(error),
    }
}

/// The texts of strings.
pub open spec fn texts(strings: Seq<String>) -> Seq<Seq<char>> {
    Seq::new(strings.len(), |i: int| strings[i]@)
}

/// A reply that holds paths.
pub open spec fn paths_reply(reply: Result<Vec<String>, FileSystemError>) -> Result<
    Seq<Seq<char>>,
    FileSystemError,
> {
    match reply {
        Ok(paths) => Ok(texts(paths@)),
        Err(error) => Err(error),
    }
}

/// Whether an error is a host error of the given kind and text, without a native
/// code.
pub open spec fn is_host_error(
    error: FileSystemError,
    kind: HostIoErrorKind,
    text: Seq<char>,
) -> bool {
    error matches FileSystemError::Io(host) && host.kind == kind && host.raw_os_error is None
        && host.text@ == text
}

/// The category and the native code of an error. Only a host error has a code.
pub open spec fn classified(error: FileSystemError) -> (PortableIoErrorKind, i32) {
    match error {
        FileSystemError::NotFile => (PortableIoErrorKind::NotFile, 0),
        FileSystemError::NotDirectory => (PortableIoErrorKind::NotDirectory, 0),
        FileSystemError::InvalidPath => (PortableIoErrorKind::InvalidPath, 0),
        FileSystemError::LimitExceeded => (PortableIoErrorKind::LimitExceeded, 0),
        FileSystemError::Io(host) => (
            portable_kind(host.kind),
            match host.raw_os_error {
                Some(code) => code,
                None => 0,
            },
        ),
    }
}

/// Classify an error into the category and the code that programs see.
pub fn classify(error: FileSystemError) -> (result: (PortableIoErrorKind, i32))
    ensures
        result == classified(error),
{
    match error {
        FileSystemError::NotFile => (PortableIoErrorKind::NotFile, 0),
        FileSystemError::NotDirectory => (PortableIoErrorKind::NotDirectory, 0),
        FileSystemError::InvalidPath => (PortableIoErrorKind::InvalidPath, 0),
        FileSystemError::LimitExceeded => (PortableIoErrorKind::LimitExceeded, 0),
        FileSystemError::Io(host) => {
            let portable = classify_io_error(&host);
            (portable.kind, portable.os_code)
        },
    }
}

/// Whether a length is known, and reaches a limit.
pub open spec fn reaches(known_length: Option<u64>, limit: u64) -> bool {
    known_length matches Some(length) && length >= limit
}

/// Decides how a regular file is read: not at all when its length, where it is
/// known, already reaches the limit; otherwise up to the limit, because the file
/// may have grown.
pub fn read_bounded_regular_file(known_regular_len: Option<u64>, probe_limit: u64) -> (decision:
    Result<u64, FileSystemError>)
    ensures
        match decision {
            Ok(most) => !reaches(known_regular_len, probe_limit) && most == probe_limit,
            Err(error) => reaches(known_regular_len, probe_limit) && error is LimitExceeded,
        },
{
    match known_regular_len {
        Some(length) if length >= probe_limit => Err(FileSystemError::LimitExceeded),
        _ => Ok(probe_limit),
    }
}

/// How many bytes texts take together.
pub open spec fn total_bytes(paths: Seq<Seq<char>>) -> int
    decreases paths.len(),
{
    if paths.len() == 0 {
        0
    } else {
        total_bytes(paths.drop_last()) + encode_utf8(paths.last()).len()
    }
}

/// Whether a listing stays within its limits.
pub open spec fn listing_fits(
    paths: Seq<Seq<char>>,
    max_entries: usize,
    max_total_bytes: usize,
) -> bool {
    paths.len() <= max_entries && total_bytes(paths) <= max_total_bytes
}

/// Adds one path to a listing, within its limits.
pub fn collect_list_path(
    paths: &mut Vec<String>,
    total_bytes: &mut usize,
    path: &str,
    max_entries: usize,
    max_total_bytes: usize,
) -> (result: Result<(), FileSystemError>)
    requires
        *old(total_bytes) == self::total_bytes(texts(old(paths)@)),
    ensures
        *final(total_bytes) == self::total_bytes(texts(final(paths)@)),
        match result {
            Ok(_) => {
                &&& texts(final(paths)@) == texts(old(paths)@).push(path@)
                &&& listing_fits(texts(final(paths)@), max_entries, max_total_bytes)
            },
            Err(error) => {
                &&& error is LimitExceeded
                &&& final(paths)@ == old(paths)@
                &&& !listing_fits(texts(old(paths)@).push(path@), max_entries, max_total_bytes)
            },
        },
{
    let ghost before = texts(paths@);
    let size: usize = path.as_bytes().len();
    let count: usize = paths.len();
    proof {
        assert(before.push(path@).drop_last() =~= before);
    }
    if count >= max_entries {
        return Err(FileSystemError::LimitExceeded);
    }
    let next_total: usize = match (*total_bytes).checked_add(size) {
        None => {
            return Err(FileSystemError::LimitExceeded);
        },
        Some(total) => total,
    };
    if next_total > max_total_bytes {
        return Err(FileSystemError::LimitExceeded);
    }
    paths.push(path.to_owned());
    *total_bytes = next_total;
    assert(texts(paths@) =~= before.push(path@));
    Ok(())
}

/// The error of a backend that cannot do what it was asked.
fn unsupported(text: &str) -> (error: FileSystemError)
    ensures
        is_host_error(error, HostIoErrorKind::Unsupported, text@),
{
    FileSystemError::Io(HostIoError::new(HostIoErrorKind::Unsupported, text))
}

/// The reply of a backend that does not append.
pub fn no_append() -> (error: FileSystemError)
    ensures
        is_host_error(
            error,
            HostIoErrorKind::Unsupported,
            "filesystem backend does not implement append"@,
        ),
{
    unsupported("filesystem backend does not implement append")
}

/// The reply of a backend that does not list directories.
pub fn no_listing() -> (error: FileSystemError)
    ensures
        is_host_error(
            error,
            HostIoErrorKind::Unsupported,
            "filesystem backend does not implement directory enumeration"@,
        ),
{
    unsupported("filesystem backend does not implement directory enumeration")
}

/// The reply of a backend that knows nothing but whole files.
pub fn no_path_operation() -> (error: FileSystemError)
    ensures
        is_host_error(error, HostIoErrorKind::Unsupported, "unsupported"@),
{
    unsupported("unsupported")
}

/// Injectable filesystem backend. Implementations own whatever host resource
/// they read from or write to. A backend that only reads and writes whole files
/// replies to the rest with [`no_append`], [`no_listing`] and [`no_path_operation`].
pub trait FileSystemBackend: Send {
    /// Everything that was asked of this backend so far, and what it replied. Only
    /// contracts speak of it: nothing is recorded when a program runs.
    open spec fn calls(&self) -> Seq<FileCall> {
        Seq::empty()
    }

    /// Read the file at `path`, capped at `probe_limit` bytes (never more).
    /// Returning exactly `probe_limit` bytes tells the caller that the real
    /// content may exceed the limit.
    fn read_all(&mut self, path: &str, probe_limit: u64) -> (result: Result<
        Vec<u8>,
        FileSystemError,
    >)
        ensures
            final(self).calls() == old(self).calls().push(
                FileCall::ReadAll { path: path@, probe_limit, reply: content_reply(result) },
            ),
    ;

    /// Create or truncate the file at `path` and write `content` in full, then
    /// flush. Never appends, never creates parent directories. Fails where
    /// `path` names something that is not a regular file.
    fn write_all(&mut self, path: &str, content: &[u8]) -> (result: Result<(), FileSystemError>)
        ensures
            final(self).calls() == old(self).calls().push(
                FileCall::WriteAll { append: false, path: path@, content: content@, reply: result },
            ),
    ;

    /// Append bytes to a regular file, creating it when absent.
    fn append_all(&mut self, path: &str, content: &[u8]) -> (result: Result<(), FileSystemError>)
        ensures
            final(self).calls() == old(self).calls().push(
                FileCall::WriteAll { append: true, path: path@, content: content@, reply: result },
            ),
    ;

    /// List direct, regular, non-symlink files below `directory`: full paths in
    /// ordinal order, all of them or none.
    fn list_files(
        &mut self,
        directory: &str,
        max_entries: usize,
        max_total_bytes: usize,
    ) -> (result: Result<Vec<String>, FileSystemError>)
        ensures
            final(self).calls() == old(self).calls().push(
                FileCall::List {
                    directories: false,
                    directory: directory@,
                    max_entries,
                    max_total_bytes,
                    reply: paths_reply(result),
                },
            ),
    ;

    /// List direct non-symlink directory children in ordinal order.
    fn list_directories(
        &mut self,
        directory: &str,
        max_entries: usize,
        max_total_bytes: usize,
    ) -> (result: Result<Vec<String>, FileSystemError>)
        ensures
            final(self).calls() == old(self).calls().push(
                FileCall::List {
                    directories: true,
                    directory: directory@,
                    max_entries,
                    max_total_bytes,
                    reply: paths_reply(result),
                },
            ),
    ;

    /// Determine whether a path is an existing regular file.
    fn file_exists(&mut self, path: &str) -> (result: Result<bool, FileSystemError>)
        ensures
            final(self).calls() == old(self).calls().push(
                FileCall::Path { operation: PathOperation::FileExists, path: path@, reply: result },
            ),
    ;

    /// Determine whether a path is an existing directory.
    fn directory_exists(&mut self, path: &str) -> (result: Result<bool, FileSystemError>)
        ensures
            final(self).calls() == old(self).calls().push(
                FileCall::Path { operation: PathOperation::DirectoryExists, path: path@, reply: result },
            ),
    ;

    /// Create exactly one directory and report whether it was created.
    fn create_directory(&mut self, path: &str) -> (result: Result<bool, FileSystemError>)
        ensures
            final(self).calls() == old(self).calls().push(
                FileCall::Path { operation: PathOperation::CreateDirectory, path: path@, reply: result },
            ),
    ;

    /// Delete one regular file and report whether it existed.
    fn delete_file(&mut self, path: &str) -> (result: Result<bool, FileSystemError>)
        ensures
            final(self).calls() == old(self).calls().push(
                FileCall::Path { operation: PathOperation::DeleteFile, path: path@, reply: result },
            ),
    ;

    /// Delete one empty directory and report whether it existed.
    fn delete_directory(&mut self, path: &str) -> (result: Result<bool, FileSystemError>)
        ensures
            final(self).calls() == old(self).calls().push(
                FileCall::Path { operation: PathOperation::DeleteDirectory, path: path@, reply: result },
            ),
    ;
}

} // verus!

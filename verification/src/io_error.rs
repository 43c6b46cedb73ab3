//! Portable classification of host I/O errors.
//!
//! A host error is described by plain values: its kind, its native code when it
//! has one, and its text. Classification keeps the kinds that callers tell
//! apart and the native code; it never looks at the text.

use vstd::prelude::*;

verus! {

/// Portable category of a filesystem error.
#[derive(Clone, Copy, Debug, PartialEq, Eq, Structural)]
pub enum PortableIoErrorKind {
    NotFound,
    PermissionDenied,
    AlreadyExists,
    InvalidPath,
    InvalidUtf8,
    NotFile,
    NotDirectory,
    LimitExceeded,
    Other,
}

/// Portable filesystem error: a stable category plus the native OS code when
/// one exists (`0` otherwise). Carries no message, path, or handle.
#[derive(Clone, Copy, Debug, PartialEq, Eq, Structural)]
pub struct PortableIoError {
    pub kind: PortableIoErrorKind,
    pub os_code: i32,
}

/// The kind of a host I/O error, as far as the runtime tells kinds apart.
#[derive(Clone, Copy, Debug, PartialEq, Eq, Structural)]
pub enum HostIoErrorKind {
    NotFound,
    PermissionDenied,
    AlreadyExists,
    Interrupted,
    UnexpectedEof,
    TimedOut,
    WriteZero,
    Unsupported,
    InvalidInput,
    DirectoryNotEmpty,
    Other,
}

/// A host I/O error.
#[derive(Debug)]
pub struct HostIoError {
    pub kind: HostIoErrorKind,
    pub raw_os_error: Option<i32>,
    pub text: String,
}

impl HostIoError {
    /// An error without a native code.
    pub fn new(kind: HostIoErrorKind, text: &str) -> (error: Self)
        ensures
            error.kind == kind,
            error.raw_os_error is None,
            error.text@ == text@,
    {
        HostIoError { kind, raw_os_error: None, text: text.to_owned() }
    }
}

/// What is said of an error of which nothing but its kind is known.
pub open spec fn kind_text(kind: HostIoErrorKind) -> Seq<char> {
    match kind {
        HostIoErrorKind::NotFound => "entity not found"@,
        HostIoErrorKind::PermissionDenied => "permission denied"@,
        HostIoErrorKind::AlreadyExists => "entity already exists"@,
        HostIoErrorKind::Interrupted => "operation interrupted"@,
        HostIoErrorKind::UnexpectedEof => "unexpected end of file"@,
        HostIoErrorKind::TimedOut => "timed out"@,
        HostIoErrorKind::WriteZero => "write zero"@,
        HostIoErrorKind::Unsupported => "unsupported"@,
        HostIoErrorKind::InvalidInput => "invalid input parameter"@,
        HostIoErrorKind::DirectoryNotEmpty => "directory not empty"@,
        HostIoErrorKind::Other => "other error"@,
    }
}

impl HostIoError {
    /// An error of which nothing but its kind is known.
    pub fn of_kind(kind: HostIoErrorKind) -> (error: Self)
        ensures
            error.kind == kind,
            error.raw_os_error is None,
            error.text@ == kind_text(kind),
    {
        let text: &str = match kind {
            HostIoErrorKind::NotFound => "entity not found",
            HostIoErrorKind::PermissionDenied => "permission denied",
            HostIoErrorKind::AlreadyExists => "entity already exists",
            HostIoErrorKind::Interrupted => "operation interrupted",
            HostIoErrorKind::UnexpectedEof => "unexpected end of file",
            HostIoErrorKind::TimedOut => "timed out",
            HostIoErrorKind::WriteZero => "write zero",
            HostIoErrorKind::Unsupported => "unsupported",
            HostIoErrorKind::InvalidInput => "invalid input parameter",
            HostIoErrorKind::DirectoryNotEmpty => "directory not empty",
            HostIoErrorKind::Other => "other error",
        };
        Self::new(kind, text)
    }
}

/// The category of a host error kind.
pub open spec fn portable_kind(kind: HostIoErrorKind) -> PortableIoErrorKind {
    match kind {
        HostIoErrorKind::NotFound => PortableIoErrorKind::NotFound,
        HostIoErrorKind::PermissionDenied => PortableIoErrorKind::PermissionDenied,
        HostIoErrorKind::AlreadyExists => PortableIoErrorKind::AlreadyExists,
        _ => PortableIoErrorKind::Other,
    }
}

/// Classify a host error into its portable category. Only the kinds that are
/// reliably distinguished are mapped explicitly; every other kind is `Other`.
/// `InvalidPath`, `InvalidUtf8`, `NotFile`, `NotDirectory` and `LimitExceeded`
/// are produced by operations that know their own context, never here.
pub fn classify_io_error(error: &HostIoError) -> (classified: PortableIoError)
    ensures
        classified.kind == portable_kind(error.kind),
        classified.os_code == match error.raw_os_error {
            Some(code) => code,
            None => 0,
        },
{
    let kind = match error.kind {
        HostIoErrorKind::NotFound => PortableIoErrorKind::NotFound,
        HostIoErrorKind::PermissionDenied => PortableIoErrorKind::PermissionDenied,
        HostIoErrorKind::AlreadyExists => PortableIoErrorKind::AlreadyExists,
        _ => PortableIoErrorKind::Other,
    };
    let os_code: i32 = match error.raw_os_error {
        Some(code) => code,
        None => 0,
    };
    PortableIoError { kind, os_code }
}

/// The categories that only an operation can know never come out of a
/// classification.
pub proof fn law_context_categories_are_never_inferred(kind: HostIoErrorKind)
    ensures
        portable_kind(kind) != PortableIoErrorKind::InvalidPath,
        portable_kind(kind) != PortableIoErrorKind::InvalidUtf8,
        portable_kind(kind) != PortableIoErrorKind::NotFile,
        portable_kind(kind) != PortableIoErrorKind::NotDirectory,
        portable_kind(kind) != PortableIoErrorKind::LimitExceeded,
{
}

} // verus!

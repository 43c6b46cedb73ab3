//! What the replies of a host filesystem mean.
//!
//! The host performs the calls; what it found is judged here.

use vstd::prelude::*;

use crate::filesystem::FileSystemError;
use crate::io_error::{HostIoError, HostIoErrorKind};

verus! {

/// Judges whether a path is of a kind: a path at which there is nothing is not.
pub fn existence_reply(looked: Result<bool, HostIoError>) -> (reply: Result<bool, FileSystemError>)
    ensures
        reply == match looked {
            Ok(is_kind) => Ok::<bool, FileSystemError>(is_kind),
            Err(error) => if error.kind == HostIoErrorKind::NotFound {
                Ok(false)
            } else {
                Err(FileSystemError::Io(error))
            },
        },
{
    match looked {
        Ok(is_kind) => Ok(is_kind),
        Err(error) => if error.kind == HostIoErrorKind::NotFound {
            Ok(false)
        } else {
            Err(FileSystemError::Io(error))
        },
    }
}

/// Judges an attempt to create a directory. `None` where something was there
/// already, and what it is has to be looked at.
pub fn creation_reply(created: Result<(), HostIoError>) -> (reply: Option<
    Result<bool, FileSystemError>,
>)
    ensures
        reply == match created {
            Ok(_) => Some(Ok::<bool, FileSystemError>(true)),
            Err(error) => if error.kind == HostIoErrorKind::AlreadyExists {
                None
            } else {
                Some(Err(FileSystemError::Io(error)))
            },
        },
{
    match created {
        Ok(_) => Some(Ok(true)),
        Err(error) => if error.kind == HostIoErrorKind::AlreadyExists {
            None
        } else {
            Some(Err(FileSystemError::Io(error)))
        },
    }
}

/// Judges what was there already when a directory was to be created.
pub fn existing_reply(is_directory: Result<bool, HostIoError>) -> (reply: Result<
    bool,
    FileSystemError,
>)
    ensures
        reply == match is_directory {
            Ok(is_directory) => if is_directory {
                Ok::<bool, FileSystemError>(false)
            } else {
                Err(FileSystemError::NotDirectory)
            },
            Err(error) => Err(FileSystemError::Io(error)),
        },
{
    match is_directory {
        Ok(true) => Ok(false),
        Ok(false) => Err(FileSystemError::NotDirectory),
        Err(error) => Err(FileSystemError::Io(error)),
    }
}

/// Judges an attempt to delete a file, or a directory: nothing there is no error,
/// and something of the other kind is one of its own.
pub fn deletion_reply(
    deleted: Result<(), HostIoError>,
    is_other_kind: bool,
    directory: bool,
) -> (reply: Result<bool, FileSystemError>)
    ensures
        reply == match deleted {
            Ok(_) => Ok::<bool, FileSystemError>(true),
            Err(error) => if error.kind == HostIoErrorKind::NotFound {
                Ok(false)
            } else if is_other_kind {
                Err(
                    if directory {
                        FileSystemError::NotDirectory
                    } else {
                        FileSystemError::NotFile
                    },
                )
            } else {
                Err(FileSystemError::Io(error))
            },
        },
{
    match deleted {
        Ok(_) => Ok(true),
        Err(error) => if error.kind == HostIoErrorKind::NotFound {
            Ok(false)
        } else if is_other_kind {
            Err(
                if directory {
                    FileSystemError::NotDirectory
                } else {
                    FileSystemError::NotFile
                },
            )
        } else {
            Err(FileSystemError::Io(error))
        },
    }
}

/// Whether a listing takes up an entry: never a symbolic link, and otherwise only
/// what it lists.
pub fn takes_entry(is_symlink: bool, is_file: bool, is_directory: bool, directories: bool) -> (taken:
    bool)
    ensures
        taken == (!is_symlink && if directories {
            is_directory
        } else {
            is_file
        }),
{
    if is_symlink {
        false
    } else if directories {
        is_directory
    } else {
        is_file
    }
}

} // verus!

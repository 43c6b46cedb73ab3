//! What the host found, and what is told of it: whether something is there, what a listing
//! takes, how much is read, and which error it was.

use vstd::prelude::*;
use vstd::utf8::*;

use crate::console_laws::{is_text_of_line, lemma_text_of_line};
use crate::file_laws::{bytes_of_all, code_of, place_of};
use crate::filesystem::{
    classify, collect_list_path, read_bounded_regular_file, texts, FileSystemBackend,
    FileSystemError,
};
use crate::host_files::{
    creation_reply, deletion_reply, existence_reply, existing_reply, takes_entry,
};
use crate::io::strip_line_terminator;
use crate::io_error::{HostIoError, HostIoErrorKind, PortableIoErrorKind};
use crate::memory_file_laws::{differs_only_at, is_file, lemma_bytes_of_all};
use crate::memory_files::{
    FailingFileSystemBackend, MemoryFileSystemBackend, PartialWriteFailureFileSystemBackend,
    StoredEntry,
};
use crate::scalars::is_aster_whitespace;
use crate::text_laws::{is_white, lemma_white};

verus! {

/// The error of the host is handed on as it is.
pub open spec fn is_handed_on(error: HostIoError, reply: Result<bool, FileSystemError>) -> bool {
    reply matches Err(FileSystemError::Io(told)) && told == error
}

/// Something is there just when the host found it. That there is nothing is no error, and
/// any other error is handed on.
pub proof fn law_existence(looked: Result<bool, HostIoError>, reply: Result<bool, FileSystemError>)
    requires
        call_ensures(existence_reply, (looked,), reply),
    ensures
        (reply matches Ok(there) && there) <==> (looked matches Ok(found) && found),
        looked is Ok ==> reply is Ok,
        looked matches Err(error) ==> if error.kind == HostIoErrorKind::NotFound {
            reply is Ok
        } else {
            is_handed_on(error, reply)
        },
{
}

/// A directory was created, or was there, or neither. Only what is there already is looked
/// at again, and only a directory will do.
pub proof fn law_creation(
    created: Result<(), HostIoError>,
    reply: Option<Result<bool, FileSystemError>>,
    is_directory: Result<bool, HostIoError>,
    second: Result<bool, FileSystemError>,
)
    requires
        call_ensures(creation_reply, (created,), reply),
        call_ensures(existing_reply, (is_directory,), second),
    ensures
        created is Ok ==> (reply matches Some(Ok(made)) && made),
        created matches Err(error) ==> {
            &&& reply is None <==> error.kind == HostIoErrorKind::AlreadyExists
            &&& reply is Some ==> is_handed_on(error, reply->0)
        },
        is_directory matches Ok(yes) ==> if yes {
            second matches Ok(made) && !made
        } else {
            second matches Err(FileSystemError::NotDirectory)
        },
        is_directory matches Err(error) ==> is_handed_on(error, second),
{
}

/// What was deleted was there, and what was not there is not deleted. What is there and is
/// of the other kind is left, and any other error is handed on.
pub proof fn law_deletion(
    deleted: Result<(), HostIoError>,
    is_other_kind: bool,
    directory: bool,
    reply: Result<bool, FileSystemError>,
)
    requires
        call_ensures(deletion_reply, (deleted, is_other_kind, directory), reply),
    ensures
        deleted is Ok <==> (reply matches Ok(gone) && gone),
        deleted matches Err(error) ==> {
            &&& reply is Ok <==> error.kind == HostIoErrorKind::NotFound
            &&& error.kind != HostIoErrorKind::NotFound && !is_other_kind ==> is_handed_on(
                error,
                reply,
            )
            &&& error.kind != HostIoErrorKind::NotFound && is_other_kind && directory ==> (reply
                matches Err(FileSystemError::NotDirectory))
            &&& error.kind != HostIoErrorKind::NotFound && is_other_kind && !directory ==> (reply
                matches Err(FileSystemError::NotFile))
        },
{
}

/// No entry is listed both as a file and as a directory, and a link is listed as neither:
/// a file is listed among files, and a directory among directories.
pub proof fn law_listings_share_nothing(
    is_symlink: bool,
    is_file: bool,
    is_directory: bool,
    among_files: bool,
    among_directories: bool,
)
    requires
        !(is_file && is_directory),
        call_ensures(takes_entry, (is_symlink, is_file, is_directory, false), among_files),
        call_ensures(takes_entry, (is_symlink, is_file, is_directory, true), among_directories),
    ensures
        !(among_files && among_directories),
        is_symlink ==> !among_files && !among_directories,
        !is_symlink && is_file ==> among_files,
        !is_symlink && is_directory ==> among_directories,
        among_files ==> is_file,
        among_directories ==> is_directory,
{
}

/// A file is read up to the limit, unless it is known to reach it.
pub proof fn law_reading_is_bounded(
    known: Option<u64>,
    limit: u64,
    decision: Result<u64, FileSystemError>,
)
    requires
        call_ensures(read_bounded_regular_file, (known, limit), decision),
    ensures
        known is None ==> decision is Ok,
        known matches Some(length) ==> (decision is Ok <==> length < limit),
        decision matches Ok(most) ==> most == limit,
        decision matches Err(error) ==> error is LimitExceeded,
{
}

/// A path joins a listing just when the listing has room for one more and for its bytes.
/// It comes last, and a refusal leaves the listing as it was.
pub proof fn law_listing_grows_within_limits(
    paths: &mut Vec<String>,
    total: &mut usize,
    path: &str,
    max_entries: usize,
    max_total_bytes: usize,
    result: Result<(), FileSystemError>,
)
    requires
        *old(total) == bytes_of_all(texts(old(paths)@)),
        call_ensures(
            collect_list_path,
            (paths, total, path, max_entries, max_total_bytes),
            result,
        ),
    ensures
        result is Ok <==> old(paths)@.len() < max_entries && *old(total) + encode_utf8(path@).len()
            <= max_total_bytes,
        result is Ok ==> {
            &&& final(paths)@.len() == old(paths)@.len() + 1
            &&& final(paths)@.last()@ == path@
            &&& forall|i: int|
                0 <= i < old(paths)@.len() ==> (#[trigger] final(paths)@[i])@ == old(paths)@[i]@
            &&& *final(total) == *old(total) + encode_utf8(path@).len()
        },
        result matches Err(error) ==> {
            &&& error is LimitExceeded
            &&& final(paths)@ == old(paths)@
            &&& *final(total) == *old(total)
        },
{
    let before = texts(paths@);
    lemma_bytes_of_all(before);
    lemma_bytes_of_all(before.push(path@));
    assert(before.push(path@).drop_last() =~= before);
    let after = texts(final(paths)@);
    if result is Ok {
        assert(after.len() == before.len() + 1);
        assert(final(paths)@.last()@ == after.last());
        assert forall|i: int| 0 <= i < paths@.len() implies (#[trigger] final(paths)@[i])@
            == paths@[i]@ by {
            assert(after[i] == before[i]);
        }
    }
}

/// The category of an error is the one at its place, and only the host gives a code.
pub proof fn law_errors_are_classified(
    error: FileSystemError,
    told: (PortableIoErrorKind, i32),
)
    requires
        call_ensures(classify, (error,), told),
    ensures
        told.1 == code_of(error),
        place_of(error) == 0 <==> told.0 == PortableIoErrorKind::NotFound,
        place_of(error) == 1 <==> told.0 == PortableIoErrorKind::PermissionDenied,
        place_of(error) == 2 <==> told.0 == PortableIoErrorKind::AlreadyExists,
        place_of(error) == 3 <==> told.0 == PortableIoErrorKind::InvalidPath,
        place_of(error) == 5 <==> told.0 == PortableIoErrorKind::NotFile,
        place_of(error) == 6 <==> told.0 == PortableIoErrorKind::NotDirectory,
        place_of(error) == 7 <==> told.0 == PortableIoErrorKind::LimitExceeded,
        place_of(error) == 8 <==> told.0 == PortableIoErrorKind::Other,
{
}

/// A line loses its end, and nothing else.
pub proof fn law_lines_lose_their_end(line: &[u8], text: &[u8])
    requires
        call_ensures(strip_line_terminator, (line,), text),
    ensures
        is_text_of_line(line@, text@),
{
    lemma_text_of_line(line@);
}

/// Unicode's white space is white space, and nothing else is.
pub proof fn law_white_space(value: u32, white: bool)
    requires
        is_scalar(value),
        call_ensures(is_aster_whitespace, (value,), white),
    ensures
        white == is_white(value as char),
{
    lemma_white(value as char);
}

/// What a filesystem in memory is given is there, and the rest is as it was.
pub proof fn law_seeds(
    files: MemoryFileSystemBackend,
    path: &str,
    content: &[u8],
    with_file: MemoryFileSystemBackend,
    with_directory: MemoryFileSystemBackend,
    with_symlink: MemoryFileSystemBackend,
    with_other: MemoryFileSystemBackend,
)
    requires
        call_ensures(MemoryFileSystemBackend::with_file, (files, path, content), with_file),
        call_ensures(MemoryFileSystemBackend::with_directory, (files, path), with_directory),
        call_ensures(MemoryFileSystemBackend::with_symlink, (files, path), with_symlink),
        call_ensures(MemoryFileSystemBackend::with_other, (files, path), with_other),
    ensures
        is_file(with_file@, path@, content@),
        with_directory@.contains_key(path@) && with_directory@[path@] == StoredEntry::Directory,
        with_symlink@.contains_key(path@) && with_symlink@[path@] == StoredEntry::Symlink,
        with_other@.contains_key(path@) && with_other@[path@] == StoredEntry::Other,
        differs_only_at(files@, with_file@, path@),
        differs_only_at(files@, with_directory@, path@),
        differs_only_at(files@, with_symlink@, path@),
        differs_only_at(files@, with_other@, path@),
{
}

/// The error is one of the host, of this kind, and without a code.
pub open spec fn is_of_kind(error: FileSystemError, kind: HostIoErrorKind) -> bool {
    error matches FileSystemError::Io(host) && host.kind == kind && host.raw_os_error is None
}

/// A filesystem that fails was made for one kind of error, and gives it when it is to read
/// or to write.
pub proof fn law_failing_filesystem(
    kind: HostIoErrorKind,
    read_from: &mut FailingFileSystemBackend,
    written_to: &mut FailingFileSystemBackend,
    path: &str,
    limit: u64,
    content: &[u8],
    read: Result<Vec<u8>, FileSystemError>,
    written: Result<(), FileSystemError>,
)
    requires
        call_ensures(FailingFileSystemBackend::new, (kind,), *old(read_from)),
        call_ensures(FailingFileSystemBackend::new, (kind,), *old(written_to)),
        call_ensures(
            <FailingFileSystemBackend as FileSystemBackend>::read_all,
            (read_from, path, limit),
            read,
        ),
        call_ensures(
            <FailingFileSystemBackend as FileSystemBackend>::write_all,
            (written_to, path, content),
            written,
        ),
    ensures
        read matches Err(error) && is_of_kind(error, kind),
        written matches Err(error) && is_of_kind(error, kind),
{
}

/// A filesystem whose flush fails reports the failure of a write, and has the bytes.
pub proof fn law_failed_flush_leaves_the_bytes(
    files: &mut PartialWriteFailureFileSystemBackend,
    path: &str,
    content: &[u8],
    result: Result<(), FileSystemError>,
)
    requires
        !old(files)@.contains_key(path@) || old(files)@[path@] is File,
        call_ensures(
            <PartialWriteFailureFileSystemBackend as FileSystemBackend>::write_all,
            (files, path, content),
            result,
        ),
    ensures
        result is Err,
        is_file(final(files)@, path@, content@),
        differs_only_at(old(files)@, final(files)@, path@),
{
}

} // verus!

//! File and directory operations as generated code calls them.
//!
//! Each one fills a `Result` that the caller laid out: the tag, and then either
//! the value or an error made of its category and the code of the host. Nothing
//! is written where the layout is not usable.

use vstd::bytes::{
    lemma_auto_spec_u32_to_from_le_bytes, lemma_auto_spec_u64_to_from_le_bytes,
    spec_u32_to_le_bytes, spec_u64_to_le_bytes, u32_to_le_bytes, u64_to_le_bytes,
};
use vstd::prelude::*;
use vstd::slice::slice_to_vec;
use vstd::utf8::*;

use crate::array::AsterArray;
use crate::context::ExecutionContext;
use crate::filesystem::{
    classified, classify, content_reply, paths_reply, texts, FileCall, FileSystemBackend,
    FileSystemError, PathOperation, MAX_FILE_BYTES, MAX_LIST_FILES, MAX_LIST_PATH_BYTES,
};
use crate::io_error::PortableIoErrorKind;
use crate::memory::{spliced, store_bytes, zeroed};
use crate::ordering::{is_sorted_copy, sort_texts};
use crate::string::{text_payload, view_str};
use crate::string_edit::{contents, encodings};
use crate::utf8::{is_utf8, string_from_utf8};

verus! {

/// How the caller laid out a result.
#[derive(Clone, Copy, Debug, PartialEq, Eq, Structural)]
pub struct ResultLayout {
    pub total_size: i32,
    pub ok_tag: i32,
    pub error_tag: i32,
    pub ok_payload_offset: i32,
    pub error_payload_offset: i32,
    pub kind_offset: i32,
    pub oscode_offset: i32,
}

/// Whether a value of `payload_size` bytes and an error both fit a result.
pub open spec fn layout_fits(
    payload_size: int,
    total_size: int,
    ok_offset: int,
    error_offset: int,
    kind_offset: int,
    oscode_offset: int,
) -> bool {
    &&& total_size >= 4
    &&& ok_offset + payload_size <= total_size
    &&& error_offset + kind_offset + 4 <= total_size
    &&& error_offset + oscode_offset + 4 <= total_size
}

/// Whether `offset + more + size` stays within `limit`.
fn ends_within(offset: usize, more: usize, size: usize, limit: usize) -> (result: bool)
    ensures
        result == (offset + more + size <= limit),
{
    match offset.checked_add(more) {
        None => false,
        Some(start) => match start.checked_add(size) {
            None => false,
            Some(end) => end <= limit,
        },
    }
}

/// Checks the layout of a result.
pub fn result_io_error_layout_fits(
    payload_size: usize,
    total_size: usize,
    ok_offset: usize,
    error_offset: usize,
    kind_offset: usize,
    oscode_offset: usize,
) -> (result: bool)
    ensures
        result == layout_fits(
            payload_size as int,
            total_size as int,
            ok_offset as int,
            error_offset as int,
            kind_offset as int,
            oscode_offset as int,
        ),
{
    total_size >= 4 && ends_within(ok_offset, 0, payload_size, total_size) && ends_within(
        error_offset,
        kind_offset,
        4,
        total_size,
    ) && ends_within(error_offset, oscode_offset, 4, total_size)
}

impl ResultLayout {
    /// Whether no size or offset is negative.
    pub open spec fn is_positive(self) -> bool {
        &&& self.total_size >= 0
        &&& self.ok_payload_offset >= 0
        &&& self.error_payload_offset >= 0
        &&& self.kind_offset >= 0
        &&& self.oscode_offset >= 0
    }

    /// Whether a value of `payload_size` bytes and an error both fit.
    pub open spec fn fits(self, payload_size: int) -> bool {
        self.is_positive() && layout_fits(
            payload_size,
            self.total_size as int,
            self.ok_payload_offset as int,
            self.error_payload_offset as int,
            self.kind_offset as int,
            self.oscode_offset as int,
        )
    }
}

/// The place of a category among the tags of the categories.
pub open spec fn kind_position(kind: PortableIoErrorKind) -> int {
    match kind {
        PortableIoErrorKind::NotFound => 0,
        PortableIoErrorKind::PermissionDenied => 1,
        PortableIoErrorKind::AlreadyExists => 2,
        PortableIoErrorKind::InvalidPath => 3,
        PortableIoErrorKind::InvalidUtf8 => 4,
        PortableIoErrorKind::NotFile => 5,
        PortableIoErrorKind::NotDirectory => 6,
        PortableIoErrorKind::LimitExceeded => 7,
        PortableIoErrorKind::Other => 8,
    }
}

/// The tag of a category.
pub fn kind_tag(tags: &[i32; 9], kind: PortableIoErrorKind) -> (tag: i32)
    ensures
        tag == tags@[kind_position(kind)],
{
    let position: usize = match kind {
        PortableIoErrorKind::NotFound => 0,
        PortableIoErrorKind::PermissionDenied => 1,
        PortableIoErrorKind::AlreadyExists => 2,
        PortableIoErrorKind::InvalidPath => 3,
        PortableIoErrorKind::InvalidUtf8 => 4,
        PortableIoErrorKind::NotFile => 5,
        PortableIoErrorKind::NotDirectory => 6,
        PortableIoErrorKind::LimitExceeded => 7,
        PortableIoErrorKind::Other => 8,
    };
    tags[position]
}

/// A destination after a result was written to it: zeroed, then the tag, then
/// the value, or the category and the code of the error.
pub open spec fn result_written(
    target: Seq<u8>,
    layout: ResultLayout,
    outcome: Result<Seq<u8>, (PortableIoErrorKind, i32)>,
    tags: Seq<i32>,
) -> Seq<u8> {
    let blank = spliced(target, 0, zeroed(layout.total_size as nat));
    match outcome {
        Ok(payload) => spliced(
            spliced(blank, 0, spec_u32_to_le_bytes(layout.ok_tag as u32)),
            layout.ok_payload_offset as int,
            payload,
        ),
        Err((kind, os_code)) => spliced(
            spliced(
                spliced(blank, 0, spec_u32_to_le_bytes(layout.error_tag as u32)),
                layout.error_payload_offset + layout.kind_offset,
                spec_u32_to_le_bytes(tags[kind_position(kind)] as u32),
            ),
            layout.error_payload_offset + layout.oscode_offset,
            spec_u32_to_le_bytes(os_code as u32),
        ),
    }
}

/// An outcome whose value is bytes.
pub open spec fn payload_view(outcome: Result<Vec<u8>, (PortableIoErrorKind, i32)>) -> Result<
    Seq<u8>,
    (PortableIoErrorKind, i32),
> {
    match outcome {
        Ok(payload) => Ok(payload@),
        Err(error) => Err(error),
    }
}

/// Writes the whole representation of a result.
pub fn write_result_io_error(
    destination: &mut Vec<u8>,
    layout: ResultLayout,
    outcome: Result<Vec<u8>, (PortableIoErrorKind, i32)>,
    tags: &[i32; 9],
)
    requires
        layout.fits(
            match outcome {
                Ok(payload) => payload@.len() as int,
                Err(_) => 0,
            },
        ),
        old(destination)@.len() >= layout.total_size,
    ensures
        final(destination)@ == result_written(
            old(destination)@,
            layout,
            payload_view(outcome),
            tags@,
        ),
{
    proof {
        lemma_auto_spec_u32_to_from_le_bytes();
    }
    let total_size: usize = layout.total_size as usize;
    let blank: Vec<u8> = vec![0u8; total_size];
    assert(blank@ =~= zeroed(total_size as nat));
    store_bytes(destination, 0, blank.as_slice());
    match outcome {
        Ok(payload) => {
            let tag: Vec<u8> = u32_to_le_bytes(layout.ok_tag as u32);
            store_bytes(destination, 0, tag.as_slice());
            store_bytes(destination, layout.ok_payload_offset as usize, payload.as_slice());
        },
        Err((kind, os_code)) => {
            let base: usize = layout.error_payload_offset as usize;
            let tag: Vec<u8> = u32_to_le_bytes(layout.error_tag as u32);
            let category: Vec<u8> = u32_to_le_bytes(kind_tag(tags, kind) as u32);
            let code: Vec<u8> = u32_to_le_bytes(os_code as u32);
            store_bytes(destination, 0, tag.as_slice());
            store_bytes(destination, base + layout.kind_offset as usize, category.as_slice());
            store_bytes(destination, base + layout.oscode_offset as usize, code.as_slice());
        },
    }
}

/// What keeps an operation from being tried. Some operations are more terse about
/// it than others.
pub open spec fn result_report(
    operation: Seq<char>,
    terse: bool,
    has_destination: bool,
    layout: ResultLayout,
    payload_size: int,
    has_tags: bool,
    has_texts: bool,
) -> Option<Seq<char>> {
    if !has_destination {
        Some(operation + " received a null destination"@)
    } else if !layout.is_positive() {
        Some(
            operation + if terse {
                " received invalid layout metadata"@
            } else {
                " received a negative layout size"@
            },
        )
    } else if !layout.fits(payload_size) {
        Some(operation + " received a malformed Result layout"@)
    } else if !has_tags {
        Some(
            operation + if terse {
                " received invalid error metadata"@
            } else {
                " received a malformed IOErrorKind tag layout"@
            },
        )
    } else if !has_texts {
        Some(
            operation + if terse {
                " received invalid string data"@
            } else {
                " received an invalid UTF-8 string reference"@
            },
        )
    } else {
        None
    }
}

/// Whether a path cannot be one: it is empty, or holds a zero byte.
pub open spec fn is_invalid_path(path: Seq<u8>) -> bool {
    path.len() == 0 || path.contains(0)
}

/// The error of an operation on something that cannot be a path.
#[verifier::inline]
pub open spec fn invalid_path() -> (PortableIoErrorKind, i32) {
    (PortableIoErrorKind::InvalidPath, 0)
}

/// Checks a path.
fn path_is_invalid(path: &[u8]) -> (result: bool)
    ensures
        result == is_invalid_path(path@),
{
    let mut i: usize = 0;
    while i < path.len()
        invariant
            i <= path@.len(),
            forall|k: int| 0 <= k < i ==> #[trigger] path@[k] != 0,
        decreases path@.len() - i,
    {
        if path[i] == 0 {
            assert(path@.contains(0));
            return true;
        }
        i = i + 1;
    }
    path.len() == 0
}

impl ExecutionContext {
    fn fail_files(&mut self, operation: &str, rest: &str)
        requires
            old(self).wf(),
        ensures
            final(self).wf(),
            final(self).only_failed(*old(self), operation@ + rest@),
    {
        let mut message: String = operation.to_owned();
        message.append(rest);
        self.fail(message);
    }

    /// Checks what an operation received.
    fn accepts_result(
        &mut self,
        operation: &str,
        terse: bool,
        has_destination: bool,
        layout: ResultLayout,
        payload_size: usize,
        has_tags: bool,
        has_texts: bool,
    ) -> (accepted: bool)
        requires
            old(self).wf(),
        ensures
            final(self).wf(),
            ({
                let report = result_report(
                    operation@,
                    terse,
                    has_destination,
                    layout,
                    payload_size as int,
                    has_tags,
                    has_texts,
                );
                accepted == (report is None) && final(self).reported(*old(self), report)
            }),
    {
        if !has_destination {
            self.fail_files(operation, " received a null destination");
            return false;
        }
        if layout.total_size < 0 || layout.ok_payload_offset < 0 || layout.error_payload_offset < 0
            || layout.kind_offset < 0 || layout.oscode_offset < 0 {
            if terse {
                self.fail_files(operation, " received invalid layout metadata");
            } else {
                self.fail_files(operation, " received a negative layout size");
            }
            return false;
        }
        if !result_io_error_layout_fits(
            payload_size,
            layout.total_size as usize,
            layout.ok_payload_offset as usize,
            layout.error_payload_offset as usize,
            layout.kind_offset as usize,
            layout.oscode_offset as usize,
        ) {
            self.fail_files(operation, " received a malformed Result layout");
            return false;
        }
        if !has_tags {
            if terse {
                self.fail_files(operation, " received invalid error metadata");
            } else {
                self.fail_files(operation, " received a malformed IOErrorKind tag layout");
            }
            return false;
        }
        if !has_texts {
            if terse {
                self.fail_files(operation, " received invalid string data");
            } else {
                self.fail_files(operation, " received an invalid UTF-8 string reference");
            }
            return false;
        }
        true
    }
}

/// The text that valid bytes encode.
fn path_text(path: &[u8]) -> (text: String)
    requires
        valid_utf8(path@),
    ensures
        text@ == decode_utf8(path@),
{
    match string_from_utf8(slice_to_vec(path)) {
        Some(text) => text,
        None => String::new(),
    }
}

impl ExecutionContext {
    /// What storing the content of a file makes of the context `before` and of
    /// the destination. The address of a text that could not be stored is zero.
    pub open spec fn content_outcome(
        &self,
        before: Self,
        reply: Result<Seq<u8>, FileSystemError>,
        temporary: bool,
        target: Seq<u8>,
        written: Seq<u8>,
        layout: ResultLayout,
        tags: Seq<i32>,
    ) -> bool {
        match reply {
            Err(error) => *self == before && written == result_written(
                target,
                layout,
                Err(classified(error)),
                tags,
            ),
            Ok(bytes) => if bytes.len() > MAX_FILE_BYTES {
                *self == before && written == result_written(
                    target,
                    layout,
                    Err((PortableIoErrorKind::LimitExceeded, 0i32)),
                    tags,
                )
            } else if !valid_utf8(bytes) {
                *self == before && written == result_written(
                    target,
                    layout,
                    Err((PortableIoErrorKind::InvalidUtf8, 0i32)),
                    tags,
                )
            } else {
                exists|result: Option<u64>|
                    {
                        &&& #[trigger] self.string_outcome(before, temporary, bytes, result)
                        &&& written == result_written(
                            target,
                            layout,
                            Ok(
                                spec_u64_to_le_bytes(
                                    match result {
                                        Some(address) => address,
                                        None => 0,
                                    },
                                ),
                            ),
                            tags,
                        )
                    }
            },
        }
    }

    /// Stores the content of a file as a text.
    pub fn store_file_text(
        &mut self,
        reply: Result<Vec<u8>, FileSystemError>,
        temporary: bool,
        destination: &mut Vec<u8>,
        layout: ResultLayout,
        tags: &[i32; 9],
    )
        requires
            old(self).wf(),
            layout.fits(8),
            old(destination)@.len() >= layout.total_size,
        ensures
            final(self).wf(),
            old(self).scoped() ==> final(self).scoped(),
            final(self).content_outcome(
                *old(self),
                content_reply(reply),
                temporary,
                old(destination)@,
                final(destination)@,
                layout,
                tags@,
            ),
    {
        let ghost before = *self;
        let outcome: Result<Vec<u8>, (PortableIoErrorKind, i32)> = match reply {
            Err(error) => Err(classify(error)),
            Ok(bytes) => if bytes.len() as u64 > MAX_FILE_BYTES {
                Err((PortableIoErrorKind::LimitExceeded, 0))
            } else if !is_utf8(bytes.as_slice()) {
                Err((PortableIoErrorKind::InvalidUtf8, 0))
            } else {
                let result: Option<u64> = self.allocate_text(bytes.as_slice(), temporary);
                proof {
                    lemma_auto_spec_u64_to_from_le_bytes();
                    assert(self.string_outcome(before, temporary, bytes@, result));
                }
                let address: u64 = match result {
                    Some(address) => address,
                    None => 0,
                };
                Ok(u64_to_le_bytes(address))
            },
        };
        write_result_io_error(destination, layout, outcome, tags);
    }

    /// What reading a file makes of the context `before` and of the destination.
    pub open spec fn read_text_outcome(
        &self,
        before: Self,
        path: Seq<u8>,
        temporary: bool,
        target: Seq<u8>,
        written: Seq<u8>,
        layout: ResultLayout,
        tags: Seq<i32>,
    ) -> bool {
        if is_invalid_path(path) {
            *self == before && written == result_written(
                target,
                layout,
                Err(invalid_path()),
                tags,
            )
        } else {
            exists|after: ExecutionContext, reply: Result<Seq<u8>, FileSystemError>|
                {
                    &&& #[trigger] after.only_asked_files(
                        before,
                        FileCall::ReadAll {
                            path: decode_utf8(path),
                            probe_limit: (MAX_FILE_BYTES + 1) as u64,
                            reply,
                        },
                    )
                    &&& self.content_outcome(
                        after,
                        reply,
                        temporary,
                        target,
                        written,
                        layout,
                        tags,
                    )
                }
        }
    }
}

/// Does the work of the two calls below.
fn read_all_text(
    context: Option<&mut ExecutionContext>,
    path: Option<&[u8]>,
    destination: Option<&mut Vec<u8>>,
    layout: ResultLayout,
    kind_tags: Option<&[i32; 9]>,
    temporary: bool,
)
    requires
        context matches Some(c) ==> c.wf(),
        destination matches Some(d) ==> d@.len() >= layout.total_size,
    ensures
        context is None ==> (destination matches Some(d) ==> final(d)@ == d@),
        context matches Some(c) ==> {
            let report = result_report(
                "aster.io.ReadAllText"@,
                false,
                destination is Some,
                layout,
                8,
                kind_tags is Some,
                text_payload(path) is Some,
            );
            &&& final(c).wf()
            &&& c.scoped() ==> final(c).scoped()
            &&& report matches Some(text) ==> {
                &&& final(c).only_failed(*c, text)
                &&& destination matches Some(d) ==> final(d)@ == d@
            }
            &&& report is None ==> (destination matches Some(d) ==> final(c).read_text_outcome(
                *c,
                text_payload(path)->0,
                temporary,
                d@,
                final(d)@,
                layout,
                kind_tags->0@,
            ))
        },
{
    let context: &mut ExecutionContext = match context {
        None => {
            return ;
        },
        Some(context) => context,
    };
    let text: Option<&[u8]> = view_str(path);
    if !context.accepts_result(
        "aster.io.ReadAllText",
        false,
        destination.is_some(),
        layout,
        8,
        kind_tags.is_some(),
        text.is_some(),
    ) {
        return ;
    }
    if let (Some(destination), Some(tags), Some(bytes)) = (destination, kind_tags, text) {
        if path_is_invalid(bytes) {
            write_result_io_error(
                destination,
                layout,
                Err((PortableIoErrorKind::InvalidPath, 0)),
                tags,
            );
            return ;
        }
        let ghost before = *context;
        let name: String = path_text(bytes);
        let reply: Result<Vec<u8>, FileSystemError> = context.file_read_all(
            name.as_str(),
            MAX_FILE_BYTES + 1,
        );
        let ghost after = *context;
        let ghost said = content_reply(reply);
        proof {
            assert(after.only_asked_files(
                before,
                FileCall::ReadAll {
                    path: decode_utf8(bytes@),
                    probe_limit: (MAX_FILE_BYTES + 1) as u64,
                    reply: said,
                },
            ));
        }
        context.store_file_text(reply, temporary, destination, layout, tags);
    }
}

/// Reads a whole text file.
pub fn aster_rt_io_read_all_text(
    context: Option<&mut ExecutionContext>,
    path: Option<&[u8]>,
    destination: Option<&mut Vec<u8>>,
    total_size: i32,
    ok_tag: i32,
    error_tag: i32,
    ok_payload_offset: i32,
    error_payload_offset: i32,
    kind_offset: i32,
    oscode_offset: i32,
    kind_tags: Option<&[i32; 9]>,
)
    requires
        context matches Some(c) ==> c.wf(),
        destination matches Some(d) ==> d@.len() >= total_size,
    ensures
        context is None ==> (destination matches Some(d) ==> final(d)@ == d@),
        context matches Some(c) ==> {
            let report = result_report(
                "aster.io.ReadAllText"@,
                false,
                destination is Some,
                (ResultLayout {
                    total_size,
                    ok_tag,
                    error_tag,
                    ok_payload_offset,
                    error_payload_offset,
                    kind_offset,
                    oscode_offset,
                }),
                8,
                kind_tags is Some,
                text_payload(path) is Some,
            );
            &&& final(c).wf()
            &&& c.scoped() ==> final(c).scoped()
            &&& report matches Some(text) ==> {
                &&& final(c).only_failed(*c, text)
                &&& destination matches Some(d) ==> final(d)@ == d@
            }
            &&& report is None ==> (destination matches Some(d) ==> final(c).read_text_outcome(
                *c,
                text_payload(path)->0,
                false,
                d@,
                final(d)@,
                (ResultLayout {
                    total_size,
                    ok_tag,
                    error_tag,
                    ok_payload_offset,
                    error_payload_offset,
                    kind_offset,
                    oscode_offset,
                }),
                kind_tags->0@,
            ))
        },
{
    let layout = ResultLayout {
        total_size,
        ok_tag,
        error_tag,
        ok_payload_offset,
        error_payload_offset,
        kind_offset,
        oscode_offset,
    };
    read_all_text(context, path, destination, layout, kind_tags, false);
}

/// Reads a whole text file into a text that lives until its scope is left.
pub fn aster_rt_io_read_all_text_temporary(
    context: Option<&mut ExecutionContext>,
    path: Option<&[u8]>,
    destination: Option<&mut Vec<u8>>,
    total_size: i32,
    ok_tag: i32,
    error_tag: i32,
    ok_payload_offset: i32,
    error_payload_offset: i32,
    kind_offset: i32,
    oscode_offset: i32,
    kind_tags: Option<&[i32; 9]>,
)
    requires
        context matches Some(c) ==> c.wf(),
        destination matches Some(d) ==> d@.len() >= total_size,
    ensures
        context is None ==> (destination matches Some(d) ==> final(d)@ == d@),
        context matches Some(c) ==> {
            let report = result_report(
                "aster.io.ReadAllText"@,
                false,
                destination is Some,
                (ResultLayout {
                    total_size,
                    ok_tag,
                    error_tag,
                    ok_payload_offset,
                    error_payload_offset,
                    kind_offset,
                    oscode_offset,
                }),
                8,
                kind_tags is Some,
                text_payload(path) is Some,
            );
            &&& final(c).wf()
            &&& c.scoped() ==> final(c).scoped()
            &&& report matches Some(text) ==> {
                &&& final(c).only_failed(*c, text)
                &&& destination matches Some(d) ==> final(d)@ == d@
            }
            &&& report is None ==> (destination matches Some(d) ==> final(c).read_text_outcome(
                *c,
                text_payload(path)->0,
                true,
                d@,
                final(d)@,
                (ResultLayout {
                    total_size,
                    ok_tag,
                    error_tag,
                    ok_payload_offset,
                    error_payload_offset,
                    kind_offset,
                    oscode_offset,
                }),
                kind_tags->0@,
            ))
        },
{
    let layout = ResultLayout {
        total_size,
        ok_tag,
        error_tag,
        ok_payload_offset,
        error_payload_offset,
        kind_offset,
        oscode_offset,
    };
    read_all_text(context, path, destination, layout, kind_tags, true);
}

/// What is wrong with a listing from one of its paths on: a path that cannot be
/// one, or more bytes than a listing may take.
pub open spec fn listing_fault_from(paths: Seq<Seq<char>>, from: int, total: int) -> Option<
    PortableIoErrorKind,
>
    decreases paths.len() - from,
{
    if from < 0 || from >= paths.len() {
        None
    } else {
        let path = encode_utf8(paths[from]);
        if is_invalid_path(path) {
            Some(PortableIoErrorKind::InvalidPath)
        } else if total + path.len() > MAX_LIST_PATH_BYTES {
            Some(PortableIoErrorKind::LimitExceeded)
        } else {
            listing_fault_from(paths, from + 1, total + path.len())
        }
    }
}

/// What is wrong with a listing in order, if anything is.
pub open spec fn listing_fault(paths: Seq<Seq<char>>) -> Option<PortableIoErrorKind> {
    if paths.len() > MAX_LIST_FILES {
        Some(PortableIoErrorKind::LimitExceeded)
    } else {
        listing_fault_from(paths, 0, 0)
    }
}

/// Checks a listing in order.
pub fn check_listing(paths: &Vec<String>) -> (fault: Option<PortableIoErrorKind>)
    ensures
        fault == listing_fault(texts(paths@)),
{
    if paths.len() > MAX_LIST_FILES {
        return Some(PortableIoErrorKind::LimitExceeded);
    }
    let ghost all = texts(paths@);
    let mut total: usize = 0;
    let mut i: usize = 0;
    while i < paths.len()
        invariant
            all == texts(paths@),
            i <= paths@.len() <= MAX_LIST_FILES,
            total <= MAX_LIST_PATH_BYTES,
            listing_fault(all) == listing_fault_from(all, i as int, total as int),
        decreases paths@.len() - i,
    {
        let path: &[u8] = paths[i].as_str().as_bytes();
        let size: usize = path.len();
        assert(path@ == encode_utf8(all[i as int]));
        if path_is_invalid(path) {
            return Some(PortableIoErrorKind::InvalidPath);
        }
        if size > MAX_LIST_PATH_BYTES - total {
            return Some(PortableIoErrorKind::LimitExceeded);
        }
        total = total + size;
        i = i + 1;
    }
    None
}

/// The bytes of texts.
fn encode_texts(paths: &Vec<String>) -> (pieces: Vec<Vec<u8>>)
    ensures
        contents(pieces@) == encodings(texts(paths@)),
{
    let mut pieces: Vec<Vec<u8>> = Vec::new();
    let mut i: usize = 0;
    while i < paths.len()
        invariant
            i <= paths@.len(),
            pieces@.len() == i,
            forall|k: int| 0 <= k < i ==> (#[trigger] pieces@[k])@ == encode_utf8(paths@[k]@),
        decreases paths@.len() - i,
    {
        pieces.push(slice_to_vec(paths[i].as_str().as_bytes()));
        i = i + 1;
    }
    assert(contents(pieces@) =~= encodings(texts(paths@)));
    pieces
}

impl ExecutionContext {
    /// What storing a listing makes of the context `before` and of the
    /// destination: the array of its paths in order, or an error. Where memory is
    /// denied nothing is written.
    pub open spec fn listing_outcome(
        &self,
        before: Self,
        reply: Result<Seq<Seq<char>>, FileSystemError>,
        temporary: bool,
        target: Seq<u8>,
        written: Seq<u8>,
        layout: ResultLayout,
        tags: Seq<i32>,
        result: Option<AsterArray>,
    ) -> bool {
        match reply {
            Err(error) => {
                &&& result is None
                &&& *self == before
                &&& written == result_written(target, layout, Err(classified(error)), tags)
            },
            Ok(listing) => exists|sorted: Seq<Seq<char>>|
                {
                    &&& #[trigger] is_sorted_copy(sorted, listing)
                    &&& match listing_fault(sorted) {
                        Some(kind) => {
                            &&& result is None
                            &&& *self == before
                            &&& written == result_written(
                                target,
                                layout,
                                Err((kind, 0i32)),
                                tags,
                            )
                        },
                        None => {
                            &&& self.strings_outcome(before, temporary, encodings(sorted), result)
                            &&& written == match result {
                                Some(array) => result_written(
                                    target,
                                    layout,
                                    Ok(spec_u64_to_le_bytes(array.address)),
                                    tags,
                                ),
                                None => target,
                            }
                        },
                    }
                },
        }
    }

    /// Stores a listing as an array of texts. The result is the array whose
    /// address is written.
    pub fn store_listing(
        &mut self,
        reply: Result<Vec<String>, FileSystemError>,
        temporary: bool,
        destination: &mut Vec<u8>,
        layout: ResultLayout,
        tags: &[i32; 9],
    ) -> (result: Option<AsterArray>)
        requires
            old(self).wf(),
            layout.fits(8),
            old(destination)@.len() >= layout.total_size,
        ensures
            final(self).wf(),
            old(self).scoped() ==> final(self).scoped(),
            final(self).listing_outcome(
                *old(self),
                paths_reply(reply),
                temporary,
                old(destination)@,
                final(destination)@,
                layout,
                tags@,
                result,
            ),
    {
        let ghost said = paths_reply(reply);
        let paths: Vec<String> = match reply {
            Err(error) => {
                write_result_io_error(destination, layout, Err(classify(error)), tags);
                return None;
            },
            Ok(paths) => sort_texts(paths),
        };
        let ghost sorted = texts(paths@);
        assert(is_sorted_copy(sorted, said->Ok_0));
        match check_listing(&paths) {
            Some(kind) => {
                write_result_io_error(destination, layout, Err((kind, 0)), tags);
                None
            },
            None => {
                let pieces: Vec<Vec<u8>> = encode_texts(&paths);
                proof {
                    lemma_auto_spec_u64_to_from_le_bytes();
                    assert(pieces@.len() == contents(pieces@).len());
                    assert(pieces@.len() == encodings(sorted).len());
                    assert forall|i: int| 0 <= i < pieces@.len() implies valid_utf8(
                        (#[trigger] pieces@[i])@,
                    ) by {
                        assert(pieces@[i]@ == contents(pieces@)[i]);
                        assert(encodings(sorted)[i] == encode_utf8(sorted[i]));
                        encode_utf8_valid_utf8(sorted[i]);
                    }
                }
                let result: Option<AsterArray> = self.allocate_strings(&pieces, temporary);
                if let Some(array) = result {
                    write_result_io_error(
                        destination,
                        layout,
                        Ok(u64_to_le_bytes(array.address)),
                        tags,
                    );
                }
                result
            },
        }
    }

    /// What listing a directory makes of the context `before` and of the
    /// destination.
    pub open spec fn list_outcome(
        &self,
        before: Self,
        directory: Seq<u8>,
        directories: bool,
        temporary: bool,
        target: Seq<u8>,
        written: Seq<u8>,
        layout: ResultLayout,
        tags: Seq<i32>,
        result: Option<AsterArray>,
    ) -> bool {
        if is_invalid_path(directory) {
            &&& result is None
            &&& *self == before
            &&& written == result_written(target, layout, Err(invalid_path()), tags)
        } else {
            exists|after: ExecutionContext, reply: Result<Seq<Seq<char>>, FileSystemError>|
                {
                    &&& #[trigger] after.only_asked_files(
                        before,
                        FileCall::List {
                            directories,
                            directory: decode_utf8(directory),
                            max_entries: MAX_LIST_FILES,
                            max_total_bytes: MAX_LIST_PATH_BYTES,
                            reply,
                        },
                    )
                    &&& self.listing_outcome(
                        after,
                        reply,
                        temporary,
                        target,
                        written,
                        layout,
                        tags,
                        result,
                    )
                }
        }
    }
}

/// Does the work of the four calls below.
fn list_paths(
    context: Option<&mut ExecutionContext>,
    directory: Option<&[u8]>,
    destination: Option<&mut Vec<u8>>,
    layout: ResultLayout,
    kind_tags: Option<&[i32; 9]>,
    temporary: bool,
    directories: bool,
) -> (result: Option<AsterArray>)
    requires
        context matches Some(c) ==> c.wf(),
        destination matches Some(d) ==> d@.len() >= layout.total_size,
    ensures
        context is None ==> result is None,
        context is None ==> (destination matches Some(d) ==> final(d)@ == d@),
        context matches Some(c) ==> {
            let report = result_report(
                "aster.io directory listing"@,
                false,
                destination is Some,
                layout,
                8,
                kind_tags is Some,
                text_payload(directory) is Some,
            );
            &&& final(c).wf()
            &&& c.scoped() ==> final(c).scoped()
            &&& report matches Some(text) ==> {
                &&& result is None
                &&& final(c).only_failed(*c, text)
                &&& destination matches Some(d) ==> final(d)@ == d@
            }
            &&& report is None ==> (destination matches Some(d) ==> final(c).list_outcome(
                *c,
                text_payload(directory)->0,
                directories,
                temporary,
                d@,
                final(d)@,
                layout,
                kind_tags->0@,
                result,
            ))
        },
{
    let context: &mut ExecutionContext = match context {
        None => {
            return None;
        },
        Some(context) => context,
    };
    let text: Option<&[u8]> = view_str(directory);
    if !context.accepts_result(
        "aster.io directory listing",
        false,
        destination.is_some(),
        layout,
        8,
        kind_tags.is_some(),
        text.is_some(),
    ) {
        return None;
    }
    match (destination, kind_tags, text) {
        (Some(destination), Some(tags), Some(bytes)) => {
            if path_is_invalid(bytes) {
                write_result_io_error(
                    destination,
                    layout,
                    Err((PortableIoErrorKind::InvalidPath, 0)),
                    tags,
                );
                return None;
            }
            let ghost before = *context;
            let name: String = path_text(bytes);
            let reply: Result<Vec<String>, FileSystemError> = context.file_list(
                directories,
                name.as_str(),
                MAX_LIST_FILES,
                MAX_LIST_PATH_BYTES,
            );
            let ghost after = *context;
            let ghost said = paths_reply(reply);
            proof {
                assert(after.only_asked_files(
                    before,
                    FileCall::List {
                        directories,
                        directory: decode_utf8(bytes@),
                        max_entries: MAX_LIST_FILES,
                        max_total_bytes: MAX_LIST_PATH_BYTES,
                        reply: said,
                    },
                ));
            }
            context.store_listing(reply, temporary, destination, layout, tags)
        },
        _ => None,
    }
}

/// Lists the files of a directory.
pub fn aster_rt_io_list_files(
    context: Option<&mut ExecutionContext>,
    directory: Option<&[u8]>,
    destination: Option<&mut Vec<u8>>,
    total_size: i32,
    ok_tag: i32,
    error_tag: i32,
    ok_payload_offset: i32,
    error_payload_offset: i32,
    kind_offset: i32,
    oscode_offset: i32,
    kind_tags: Option<&[i32; 9]>,
) -> (result: Option<AsterArray>)
    requires
        context matches Some(c) ==> c.wf(),
        destination matches Some(d) ==> d@.len() >= total_size,
    ensures
        context is None ==> result is None,
        context is None ==> (destination matches Some(d) ==> final(d)@ == d@),
        context matches Some(c) ==> {
            let report = result_report(
                "aster.io directory listing"@,
                false,
                destination is Some,
                (ResultLayout {
                    total_size,
                    ok_tag,
                    error_tag,
                    ok_payload_offset,
                    error_payload_offset,
                    kind_offset,
                    oscode_offset,
                }),
                8,
                kind_tags is Some,
                text_payload(directory) is Some,
            );
            &&& final(c).wf()
            &&& c.scoped() ==> final(c).scoped()
            &&& report matches Some(text) ==> {
                &&& result is None
                &&& final(c).only_failed(*c, text)
                &&& destination matches Some(d) ==> final(d)@ == d@
            }
            &&& report is None ==> (destination matches Some(d) ==> final(c).list_outcome(
                *c,
                text_payload(directory)->0,
                false,
                false,
                d@,
                final(d)@,
                (ResultLayout {
                    total_size,
                    ok_tag,
                    error_tag,
                    ok_payload_offset,
                    error_payload_offset,
                    kind_offset,
                    oscode_offset,
                }),
                kind_tags->0@,
                result,
            ))
        },
{
    let layout = ResultLayout {
        total_size,
        ok_tag,
        error_tag,
        ok_payload_offset,
        error_payload_offset,
        kind_offset,
        oscode_offset,
    };
    list_paths(context, directory, destination, layout, kind_tags, false, false)
}

/// Lists the files of a directory, until the scope is left.
pub fn aster_rt_io_list_files_temporary(
    context: Option<&mut ExecutionContext>,
    directory: Option<&[u8]>,
    destination: Option<&mut Vec<u8>>,
    total_size: i32,
    ok_tag: i32,
    error_tag: i32,
    ok_payload_offset: i32,
    error_payload_offset: i32,
    kind_offset: i32,
    oscode_offset: i32,
    kind_tags: Option<&[i32; 9]>,
) -> (result: Option<AsterArray>)
    requires
        context matches Some(c) ==> c.wf(),
        destination matches Some(d) ==> d@.len() >= total_size,
    ensures
        context is None ==> result is None,
        context is None ==> (destination matches Some(d) ==> final(d)@ == d@),
        context matches Some(c) ==> {
            let report = result_report(
                "aster.io directory listing"@,
                false,
                destination is Some,
                (ResultLayout {
                    total_size,
                    ok_tag,
                    error_tag,
                    ok_payload_offset,
                    error_payload_offset,
                    kind_offset,
                    oscode_offset,
                }),
                8,
                kind_tags is Some,
                text_payload(directory) is Some,
            );
            &&& final(c).wf()
            &&& c.scoped() ==> final(c).scoped()
            &&& report matches Some(text) ==> {
                &&& result is None
                &&& final(c).only_failed(*c, text)
                &&& destination matches Some(d) ==> final(d)@ == d@
            }
            &&& report is None ==> (destination matches Some(d) ==> final(c).list_outcome(
                *c,
                text_payload(directory)->0,
                false,
                true,
                d@,
                final(d)@,
                (ResultLayout {
                    total_size,
                    ok_tag,
                    error_tag,
                    ok_payload_offset,
                    error_payload_offset,
                    kind_offset,
                    oscode_offset,
                }),
                kind_tags->0@,
                result,
            ))
        },
{
    let layout = ResultLayout {
        total_size,
        ok_tag,
        error_tag,
        ok_payload_offset,
        error_payload_offset,
        kind_offset,
        oscode_offset,
    };
    list_paths(context, directory, destination, layout, kind_tags, true, false)
}

/// Lists the directories of a directory.
pub fn aster_rt_io_list_directories(
    context: Option<&mut ExecutionContext>,
    directory: Option<&[u8]>,
    destination: Option<&mut Vec<u8>>,
    total_size: i32,
    ok_tag: i32,
    error_tag: i32,
    ok_payload_offset: i32,
    error_payload_offset: i32,
    kind_offset: i32,
    oscode_offset: i32,
    kind_tags: Option<&[i32; 9]>,
) -> (result: Option<AsterArray>)
    requires
        context matches Some(c) ==> c.wf(),
        destination matches Some(d) ==> d@.len() >= total_size,
    ensures
        context is None ==> result is None,
        context is None ==> (destination matches Some(d) ==> final(d)@ == d@),
        context matches Some(c) ==> {
            let report = result_report(
                "aster.io directory listing"@,
                false,
                destination is Some,
                (ResultLayout {
                    total_size,
                    ok_tag,
                    error_tag,
                    ok_payload_offset,
                    error_payload_offset,
                    kind_offset,
                    oscode_offset,
                }),
                8,
                kind_tags is Some,
                text_payload(directory) is Some,
            );
            &&& final(c).wf()
            &&& c.scoped() ==> final(c).scoped()
            &&& report matches Some(text) ==> {
                &&& result is None
                &&& final(c).only_failed(*c, text)
                &&& destination matches Some(d) ==> final(d)@ == d@
            }
            &&& report is None ==> (destination matches Some(d) ==> final(c).list_outcome(
                *c,
                text_payload(directory)->0,
                true,
                false,
                d@,
                final(d)@,
                (ResultLayout {
                    total_size,
                    ok_tag,
                    error_tag,
                    ok_payload_offset,
                    error_payload_offset,
                    kind_offset,
                    oscode_offset,
                }),
                kind_tags->0@,
                result,
            ))
        },
{
    let layout = ResultLayout {
        total_size,
        ok_tag,
        error_tag,
        ok_payload_offset,
        error_payload_offset,
        kind_offset,
        oscode_offset,
    };
    list_paths(context, directory, destination, layout, kind_tags, false, true)
}

/// Lists the directories of a directory, until the scope is left.
pub fn aster_rt_io_list_directories_temporary(
    context: Option<&mut ExecutionContext>,
    directory: Option<&[u8]>,
    destination: Option<&mut Vec<u8>>,
    total_size: i32,
    ok_tag: i32,
    error_tag: i32,
    ok_payload_offset: i32,
    error_payload_offset: i32,
    kind_offset: i32,
    oscode_offset: i32,
    kind_tags: Option<&[i32; 9]>,
) -> (result: Option<AsterArray>)
    requires
        context matches Some(c) ==> c.wf(),
        destination matches Some(d) ==> d@.len() >= total_size,
    ensures
        context is None ==> result is None,
        context is None ==> (destination matches Some(d) ==> final(d)@ == d@),
        context matches Some(c) ==> {
            let report = result_report(
                "aster.io directory listing"@,
                false,
                destination is Some,
                (ResultLayout {
                    total_size,
                    ok_tag,
                    error_tag,
                    ok_payload_offset,
                    error_payload_offset,
                    kind_offset,
                    oscode_offset,
                }),
                8,
                kind_tags is Some,
                text_payload(directory) is Some,
            );
            &&& final(c).wf()
            &&& c.scoped() ==> final(c).scoped()
            &&& report matches Some(text) ==> {
                &&& result is None
                &&& final(c).only_failed(*c, text)
                &&& destination matches Some(d) ==> final(d)@ == d@
            }
            &&& report is None ==> (destination matches Some(d) ==> final(c).list_outcome(
                *c,
                text_payload(directory)->0,
                true,
                true,
                d@,
                final(d)@,
                (ResultLayout {
                    total_size,
                    ok_tag,
                    error_tag,
                    ok_payload_offset,
                    error_payload_offset,
                    kind_offset,
                    oscode_offset,
                }),
                kind_tags->0@,
                result,
            ))
        },
{
    let layout = ResultLayout {
        total_size,
        ok_tag,
        error_tag,
        ok_payload_offset,
        error_payload_offset,
        kind_offset,
        oscode_offset,
    };
    list_paths(context, directory, destination, layout, kind_tags, true, true)
}

/// What a program learns of a write: how many bytes were written, or the error.
pub open spec fn write_answer(reply: Result<(), FileSystemError>, size: int) -> Result<
    Seq<u8>,
    (PortableIoErrorKind, i32),
> {
    match reply {
        Ok(_) => Ok(spec_u32_to_le_bytes(size as u32)),
        Err(error) => Err(classified(error)),
    }
}

/// Turns the reply to a write of at most the largest file into an outcome.
pub fn write_payload(reply: Result<(), FileSystemError>, size: usize) -> (outcome: Result<
    Vec<u8>,
    (PortableIoErrorKind, i32),
>)
    requires
        size <= MAX_FILE_BYTES,
    ensures
        payload_view(outcome) == write_answer(reply, size as int),
        outcome matches Ok(payload) ==> payload@.len() == 4,
{
    match reply {
        Ok(_) => {
            proof {
                lemma_auto_spec_u32_to_from_le_bytes();
            }
            Ok(u32_to_le_bytes(size as u32))
        },
        Err(error) => Err(classify(error)),
    }
}

/// What a program learns of a question about a path: the answer, or the error.
pub open spec fn path_answer(reply: Result<bool, FileSystemError>) -> Result<
    Seq<u8>,
    (PortableIoErrorKind, i32),
> {
    match reply {
        Ok(answer) => Ok(
            seq![
                if answer {
                    1u8
                } else {
                    0u8
                },
            ],
        ),
        Err(error) => Err(classified(error)),
    }
}

/// Turns the reply to a question about a path into an outcome.
pub fn path_payload(reply: Result<bool, FileSystemError>) -> (outcome: Result<
    Vec<u8>,
    (PortableIoErrorKind, i32),
>)
    ensures
        payload_view(outcome) == path_answer(reply),
        outcome matches Ok(payload) ==> payload@.len() == 1,
{
    match reply {
        Ok(answer) => {
            let mut payload: Vec<u8> = Vec::new();
            payload.push(
                if answer {
                    1
                } else {
                    0
                },
            );
            assert(payload@ =~= path_answer(reply)->Ok_0);
            Ok(payload)
        },
        Err(error) => Err(classify(error)),
    }
}

/// The operation that a code stands for.
pub open spec fn path_operation(code: i32) -> Option<PathOperation> {
    if code == 0 {
        Some(PathOperation::FileExists)
    } else if code == 1 {
        Some(PathOperation::DirectoryExists)
    } else if code == 2 {
        Some(PathOperation::CreateDirectory)
    } else if code == 3 {
        Some(PathOperation::DeleteFile)
    } else if code == 4 {
        Some(PathOperation::DeleteDirectory)
    } else {
        None
    }
}

/// Reads the code of an operation.
pub fn path_operation_from_abi(code: i32) -> (operation: Option<PathOperation>)
    ensures
        operation == path_operation(code),
{
    if code == 0 {
        Some(PathOperation::FileExists)
    } else if code == 1 {
        Some(PathOperation::DirectoryExists)
    } else if code == 2 {
        Some(PathOperation::CreateDirectory)
    } else if code == 3 {
        Some(PathOperation::DeleteFile)
    } else if code == 4 {
        Some(PathOperation::DeleteDirectory)
    } else {
        None
    }
}

impl ExecutionContext {
    /// What writing or extending a file makes of the context `before` and of the
    /// destination.
    pub open spec fn write_text_outcome(
        &self,
        before: Self,
        append: bool,
        path: Seq<u8>,
        content: Seq<u8>,
        target: Seq<u8>,
        written: Seq<u8>,
        layout: ResultLayout,
        tags: Seq<i32>,
    ) -> bool {
        if is_invalid_path(path) {
            *self == before && written == result_written(
                target,
                layout,
                Err(invalid_path()),
                tags,
            )
        } else if content.len() > MAX_FILE_BYTES {
            *self == before && written == result_written(
                target,
                layout,
                Err((PortableIoErrorKind::LimitExceeded, 0i32)),
                tags,
            )
        } else {
            exists|reply: Result<(), FileSystemError>|
                {
                    &&& #[trigger] self.only_asked_files(
                        before,
                        FileCall::WriteAll { append, path: decode_utf8(path), content, reply },
                    )
                    &&& written == result_written(
                        target,
                        layout,
                        write_answer(reply, content.len() as int),
                        tags,
                    )
                }
        }
    }

    /// What an operation on a path makes of the context `before` and of the
    /// destination.
    pub open spec fn path_outcome(
        &self,
        before: Self,
        code: i32,
        path: Seq<u8>,
        target: Seq<u8>,
        written: Seq<u8>,
        layout: ResultLayout,
        tags: Seq<i32>,
    ) -> bool {
        if is_invalid_path(path) {
            *self == before && written == result_written(
                target,
                layout,
                Err(invalid_path()),
                tags,
            )
        } else {
            match path_operation(code) {
                None => written == target && self.only_failed(
                    before,
                    "aster.io path operation received an invalid operation code"@,
                ),
                Some(operation) => exists|reply: Result<bool, FileSystemError>|
                    {
                        &&& #[trigger] self.only_asked_files(
                            before,
                            FileCall::Path { operation, path: decode_utf8(path), reply },
                        )
                        &&& written == result_written(target, layout, path_answer(reply), tags)
                    },
            }
        }
    }
}

/// The name of the operation that writes, or extends, a file.
pub open spec fn operation_name(append: bool) -> Seq<char> {
    if append {
        "aster.io.AppendAllText"@
    } else {
        "aster.io.WriteAllText"@
    }
}

/// Does the work of the two calls below.
fn write_text(
    context: Option<&mut ExecutionContext>,
    path: Option<&[u8]>,
    content: Option<&[u8]>,
    destination: Option<&mut Vec<u8>>,
    layout: ResultLayout,
    kind_tags: Option<&[i32; 9]>,
    append: bool,
)
    requires
        context matches Some(c) ==> c.wf(),
        destination matches Some(d) ==> d@.len() >= layout.total_size,
    ensures
        context is None ==> (destination matches Some(d) ==> final(d)@ == d@),
        context matches Some(c) ==> {
            let report = result_report(
                operation_name(append),
                append,
                destination is Some,
                layout,
                4,
                kind_tags is Some,
                text_payload(path) is Some && text_payload(content) is Some,
            );
            &&& final(c).wf()
            &&& c.scoped() ==> final(c).scoped()
            &&& report matches Some(text) ==> {
                &&& final(c).only_failed(*c, text)
                &&& destination matches Some(d) ==> final(d)@ == d@
            }
            &&& report is None ==> (destination matches Some(d) ==> final(c).write_text_outcome(
                *c,
                append,
                text_payload(path)->0,
                text_payload(content)->0,
                d@,
                final(d)@,
                layout,
                kind_tags->0@,
            ))
        },
{
    let operation: &str = if append {
        "aster.io.AppendAllText"
    } else {
        "aster.io.WriteAllText"
    };
    let context: &mut ExecutionContext = match context {
        None => {
            return ;
        },
        Some(context) => context,
    };
    let path_bytes: Option<&[u8]> = view_str(path);
    let content_bytes: Option<&[u8]> = view_str(content);
    if !context.accepts_result(
        operation,
        append,
        destination.is_some(),
        layout,
        4,
        kind_tags.is_some(),
        path_bytes.is_some() && content_bytes.is_some(),
    ) {
        return ;
    }
    if let (Some(destination), Some(tags), Some(path), Some(content)) = (
        destination,
        kind_tags,
        path_bytes,
        content_bytes,
    ) {
        let size: usize = content.len();
        if path_is_invalid(path) {
            write_result_io_error(
                destination,
                layout,
                Err((PortableIoErrorKind::InvalidPath, 0)),
                tags,
            );
            return ;
        }
        if size as u64 > MAX_FILE_BYTES {
            write_result_io_error(
                destination,
                layout,
                Err((PortableIoErrorKind::LimitExceeded, 0)),
                tags,
            );
            return ;
        }
        let name: String = path_text(path);
        let reply: Result<(), FileSystemError> = context.file_write_all(
            append,
            name.as_str(),
            content,
        );
        let outcome: Result<Vec<u8>, (PortableIoErrorKind, i32)> = write_payload(reply, size);
        write_result_io_error(destination, layout, outcome, tags);
    }
}

/// Creates or truncates a file and writes a text to it.
pub fn aster_rt_io_write_all_text(
    context: Option<&mut ExecutionContext>,
    path: Option<&[u8]>,
    content: Option<&[u8]>,
    destination: Option<&mut Vec<u8>>,
    total_size: i32,
    ok_tag: i32,
    error_tag: i32,
    ok_payload_offset: i32,
    error_payload_offset: i32,
    kind_offset: i32,
    oscode_offset: i32,
    kind_tags: Option<&[i32; 9]>,
)
    requires
        context matches Some(c) ==> c.wf(),
        destination matches Some(d) ==> d@.len() >= total_size,
    ensures
        context is None ==> (destination matches Some(d) ==> final(d)@ == d@),
        context matches Some(c) ==> {
            let report = result_report(
                "aster.io.WriteAllText"@,
                false,
                destination is Some,
                (ResultLayout {
                    total_size,
                    ok_tag,
                    error_tag,
                    ok_payload_offset,
                    error_payload_offset,
                    kind_offset,
                    oscode_offset,
                }),
                4,
                kind_tags is Some,
                text_payload(path) is Some && text_payload(content) is Some,
            );
            &&& final(c).wf()
            &&& c.scoped() ==> final(c).scoped()
            &&& report matches Some(text) ==> {
                &&& final(c).only_failed(*c, text)
                &&& destination matches Some(d) ==> final(d)@ == d@
            }
            &&& report is None ==> (destination matches Some(d) ==> final(c).write_text_outcome(
                *c,
                false,
                text_payload(path)->0,
                text_payload(content)->0,
                d@,
                final(d)@,
                (ResultLayout {
                    total_size,
                    ok_tag,
                    error_tag,
                    ok_payload_offset,
                    error_payload_offset,
                    kind_offset,
                    oscode_offset,
                }),
                kind_tags->0@,
            ))
        },
{
    let layout = ResultLayout {
        total_size,
        ok_tag,
        error_tag,
        ok_payload_offset,
        error_payload_offset,
        kind_offset,
        oscode_offset,
    };
    write_text(context, path, content, destination, layout, kind_tags, false);
}

/// Appends a text to a file, which is created when there is none.
pub fn aster_rt_io_append_all_text(
    context: Option<&mut ExecutionContext>,
    path: Option<&[u8]>,
    content: Option<&[u8]>,
    destination: Option<&mut Vec<u8>>,
    total_size: i32,
    ok_tag: i32,
    error_tag: i32,
    ok_payload_offset: i32,
    error_payload_offset: i32,
    kind_offset: i32,
    oscode_offset: i32,
    kind_tags: Option<&[i32; 9]>,
)
    requires
        context matches Some(c) ==> c.wf(),
        destination matches Some(d) ==> d@.len() >= total_size,
    ensures
        context is None ==> (destination matches Some(d) ==> final(d)@ == d@),
        context matches Some(c) ==> {
            let report = result_report(
                "aster.io.AppendAllText"@,
                true,
                destination is Some,
                (ResultLayout {
                    total_size,
                    ok_tag,
                    error_tag,
                    ok_payload_offset,
                    error_payload_offset,
                    kind_offset,
                    oscode_offset,
                }),
                4,
                kind_tags is Some,
                text_payload(path) is Some && text_payload(content) is Some,
            );
            &&& final(c).wf()
            &&& c.scoped() ==> final(c).scoped()
            &&& report matches Some(text) ==> {
                &&& final(c).only_failed(*c, text)
                &&& destination matches Some(d) ==> final(d)@ == d@
            }
            &&& report is None ==> (destination matches Some(d) ==> final(c).write_text_outcome(
                *c,
                true,
                text_payload(path)->0,
                text_payload(content)->0,
                d@,
                final(d)@,
                (ResultLayout {
                    total_size,
                    ok_tag,
                    error_tag,
                    ok_payload_offset,
                    error_payload_offset,
                    kind_offset,
                    oscode_offset,
                }),
                kind_tags->0@,
            ))
        },
{
    let layout = ResultLayout {
        total_size,
        ok_tag,
        error_tag,
        ok_payload_offset,
        error_payload_offset,
        kind_offset,
        oscode_offset,
    };
    write_text(context, path, content, destination, layout, kind_tags, true);
}

/// Asks about a path, or changes what is there: whether it is a file (0) or a
/// directory (1); creating a directory (2); deleting a file (3) or a directory (4).
pub fn aster_rt_io_path_bool(
    context: Option<&mut ExecutionContext>,
    operation: i32,
    path: Option<&[u8]>,
    destination: Option<&mut Vec<u8>>,
    total_size: i32,
    ok_tag: i32,
    error_tag: i32,
    ok_payload_offset: i32,
    error_payload_offset: i32,
    kind_offset: i32,
    oscode_offset: i32,
    kind_tags: Option<&[i32; 9]>,
)
    requires
        context matches Some(c) ==> c.wf(),
        destination matches Some(d) ==> d@.len() >= total_size,
    ensures
        context is None ==> (destination matches Some(d) ==> final(d)@ == d@),
        context matches Some(c) ==> {
            let report = result_report(
                "aster.io path operation"@,
                true,
                destination is Some,
                (ResultLayout {
                    total_size,
                    ok_tag,
                    error_tag,
                    ok_payload_offset,
                    error_payload_offset,
                    kind_offset,
                    oscode_offset,
                }),
                1,
                kind_tags is Some,
                text_payload(path) is Some,
            );
            &&& final(c).wf()
            &&& c.scoped() ==> final(c).scoped()
            &&& report matches Some(text) ==> {
                &&& final(c).only_failed(*c, text)
                &&& destination matches Some(d) ==> final(d)@ == d@
            }
            &&& report is None ==> (destination matches Some(d) ==> final(c).path_outcome(
                *c,
                operation,
                text_payload(path)->0,
                d@,
                final(d)@,
                (ResultLayout {
                    total_size,
                    ok_tag,
                    error_tag,
                    ok_payload_offset,
                    error_payload_offset,
                    kind_offset,
                    oscode_offset,
                }),
                kind_tags->0@,
            ))
        },
{
    let layout = ResultLayout {
        total_size,
        ok_tag,
        error_tag,
        ok_payload_offset,
        error_payload_offset,
        kind_offset,
        oscode_offset,
    };
    let context: &mut ExecutionContext = match context {
        None => {
            return ;
        },
        Some(context) => context,
    };
    let text: Option<&[u8]> = view_str(path);
    if !context.accepts_result(
        "aster.io path operation",
        true,
        destination.is_some(),
        layout,
        1,
        kind_tags.is_some(),
        text.is_some(),
    ) {
        return ;
    }
    if let (Some(destination), Some(tags), Some(bytes)) = (destination, kind_tags, text) {
        if path_is_invalid(bytes) {
            write_result_io_error(
                destination,
                layout,
                Err((PortableIoErrorKind::InvalidPath, 0)),
                tags,
            );
            return ;
        }
        let question: PathOperation = match path_operation_from_abi(operation) {
            None => {
                context.fail_with("aster.io path operation received an invalid operation code");
                return ;
            },
            Some(question) => question,
        };
        let name: String = path_text(bytes);
        let reply: Result<bool, FileSystemError> = context.file_question(question, name.as_str());
        let outcome: Result<Vec<u8>, (PortableIoErrorKind, i32)> = path_payload(reply);
        write_result_io_error(destination, layout, outcome, tags);
    }
}

impl ExecutionContext {
    /// Whether `self` came out of `before` by asking the filesystem for one thing, and
    /// then no device for anything.
    pub open spec fn asked_files(&self, before: Self, call: FileCall) -> bool {
        exists|after: ExecutionContext| #[trigger]
            after.only_asked_files(before, call) && self.carries_on(after)
    }
}

/// Everything that a program asks of the filesystem after one was injected is asked of
/// that one, in the order in which the program asks, and of no other device.
pub proof fn law_calls_reach_the_injected_filesystem<T: FileSystemBackend>(
    filesystem: T,
    states: Seq<ExecutionContext>,
    calls: Seq<FileCall>,
    n: int,
)
    requires
        states.len() == calls.len() + 1,
        states[0].file_calls() == filesystem.calls(),
        forall|k: int|
            0 <= k < calls.len() ==> states[k + 1].asked_files(states[k], #[trigger] calls[k]),
        0 <= n <= calls.len(),
    ensures
        states[n].file_calls() == filesystem.calls() + calls.take(n),
        states[n].installed().console == states[0].installed().console,
    decreases n,
{
    if n == 0 {
        assert(filesystem.calls() + calls.take(0) =~= filesystem.calls());
    } else {
        law_calls_reach_the_injected_filesystem(filesystem, states, calls, n - 1);
        assert(states[n - 1 + 1].asked_files(states[n - 1], calls[n - 1]));
        assert(calls.take(n) =~= calls.take(n - 1).push(calls[n - 1]));
        assert(filesystem.calls() + calls.take(n) =~= (filesystem.calls() + calls.take(
            n - 1,
        )).push(calls[n - 1]));
    }
}

} // verus!

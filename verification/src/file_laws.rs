//! What reading, writing and listing files is for.

use vstd::bytes::{
    lemma_auto_spec_u32_to_from_le_bytes, lemma_auto_spec_u64_to_from_le_bytes,
    spec_u32_to_le_bytes, spec_u64_to_le_bytes,
};
use vstd::prelude::*;
use vstd::utf8::*;

use crate::array::AsterArray;
use crate::context::ExecutionContext;
use crate::files::{
    aster_rt_io_append_all_text, aster_rt_io_list_directories,
    aster_rt_io_list_directories_temporary, aster_rt_io_list_files,
    aster_rt_io_list_files_temporary, aster_rt_io_path_bool, aster_rt_io_read_all_text,
    aster_rt_io_read_all_text_temporary, aster_rt_io_write_all_text, is_invalid_path,
    kind_position, listing_fault, listing_fault_from, result_written, ResultLayout,
};
use crate::filesystem::{classified, texts, FileCall, FileSystemError, PathOperation};
use crate::io_error::{HostIoErrorKind, PortableIoErrorKind};
use crate::meaning::{
    carries, lemma_carries, lemma_makes, lemma_makes_list, lemma_payload_is_carried, makes_bytes,
    makes_list, only_looks, refuses,
};
use crate::ordering::{bytes_in_order, in_order, is_sorted_copy, sort_texts};
use crate::string::text_payload;
use crate::string_edit::encodings;

verus! {

/// These bytes stand at a place.
pub open spec fn stands(s: Seq<u8>, at: int, bytes: Seq<u8>) -> bool {
    0 <= at && at + bytes.len() <= s.len() && s.subrange(at, at + bytes.len()) == bytes
}

/// A result can hold a tag and a value of `size` bytes, or a tag, a category and a code,
/// without one lying on the other.
pub open spec fn is_result_place(layout: ResultLayout, size: int) -> bool {
    let kind = layout.error_payload_offset + layout.kind_offset;
    let code = layout.error_payload_offset + layout.oscode_offset;
    &&& layout.error_payload_offset >= 0
    &&& layout.kind_offset >= 0
    &&& layout.oscode_offset >= 0
    &&& 4 <= layout.ok_payload_offset
    &&& layout.ok_payload_offset + size <= layout.total_size
    &&& 4 <= kind
    &&& kind + 4 <= layout.total_size
    &&& 4 <= code
    &&& code + 4 <= layout.total_size
    &&& kind + 4 <= code || code + 4 <= kind
}

/// Bytes behind a result are as they were.
pub open spec fn same_behind(before: Seq<u8>, after: Seq<u8>, layout: ResultLayout) -> bool {
    &&& after.len() == before.len()
    &&& forall|i: int| layout.total_size <= i < before.len() ==> #[trigger] after[i] == before[i]
}

/// The result is a value.
pub open spec fn gives(
    before: Seq<u8>,
    after: Seq<u8>,
    layout: ResultLayout,
    payload: Seq<u8>,
) -> bool {
    &&& same_behind(before, after, layout)
    &&& stands(after, 0, spec_u32_to_le_bytes(layout.ok_tag as u32))
    &&& stands(after, layout.ok_payload_offset as int, payload)
}

/// The result is an error: the tag at a place among those of the categories, and the
/// code of the host.
pub open spec fn fails(
    before: Seq<u8>,
    after: Seq<u8>,
    layout: ResultLayout,
    tags: Seq<i32>,
    place: int,
    code: i32,
) -> bool {
    &&& same_behind(before, after, layout)
    &&& stands(after, 0, spec_u32_to_le_bytes(layout.error_tag as u32))
    &&& stands(
        after,
        layout.error_payload_offset + layout.kind_offset,
        spec_u32_to_le_bytes(tags[place] as u32),
    )
    &&& stands(
        after,
        layout.error_payload_offset + layout.oscode_offset,
        spec_u32_to_le_bytes(code as u32),
    )
}

/// The place of the category of an error.
pub open spec fn place_of(error: FileSystemError) -> int {
    match error {
        FileSystemError::Io(host) => if host.kind == HostIoErrorKind::NotFound {
            0
        } else if host.kind == HostIoErrorKind::PermissionDenied {
            1
        } else if host.kind == HostIoErrorKind::AlreadyExists {
            2
        } else {
            8
        },
        FileSystemError::InvalidPath => 3,
        FileSystemError::NotFile => 5,
        FileSystemError::NotDirectory => 6,
        FileSystemError::LimitExceeded => 7,
    }
}

/// The code of an error: that of the host, where it has one.
pub open spec fn code_of(error: FileSystemError) -> i32 {
    match error {
        FileSystemError::Io(host) => match host.raw_os_error {
            Some(code) => code,
            None => 0,
        },
        _ => 0,
    }
}

/// The result is the error of the filesystem.
pub open spec fn fails_with(
    before: Seq<u8>,
    after: Seq<u8>,
    layout: ResultLayout,
    tags: Seq<i32>,
    error: FileSystemError,
) -> bool {
    fails(before, after, layout, tags, place_of(error), code_of(error))
}

/// The filesystem was asked for one thing, and nothing else happened.
pub open spec fn has_asked(
    before: ExecutionContext,
    after: ExecutionContext,
    call: FileCall,
) -> bool {
    &&& after.file_calls() == before.file_calls().push(call)
    &&& after.console_calls() == before.console_calls()
    &&& after.persistent() == before.persistent()
    &&& after.temporary() == before.temporary()
    &&& after.scopes() == before.scopes()
    &&& after.error_text() == before.error_text()
    &&& after.memory_statistics() == before.memory_statistics()
    &&& after.configuration() == before.configuration()
}

/// A name that a file can have: it is not empty, and no byte of it is zero.
pub open spec fn is_path(name: Seq<char>) -> bool {
    encode_utf8(name).len() > 0 && !encode_utf8(name).contains(0)
}

proof fn lemma_gives(
    before: Seq<u8>,
    layout: ResultLayout,
    tags: Seq<i32>,
    size: int,
    outcome: Result<Seq<u8>, (PortableIoErrorKind, i32)>,
)
    requires
        is_result_place(layout, size),
        before.len() >= layout.total_size,
        outcome matches Ok(payload) ==> payload.len() == size,
    ensures
        ({
            let after = result_written(before, layout, outcome, tags);
            match outcome {
                Ok(payload) => gives(before, after, layout, payload),
                Err((kind, code)) => fails(
                    before,
                    after,
                    layout,
                    tags,
                    kind_position(kind),
                    code,
                ),
            }
        }),
{
    lemma_auto_spec_u32_to_from_le_bytes();
    let after = result_written(before, layout, outcome, tags);
    match outcome {
        Ok(payload) => {
            let at = layout.ok_payload_offset as int;
            assert(after.subrange(0, 4) =~= spec_u32_to_le_bytes(layout.ok_tag as u32));
            assert(after.subrange(at, at + payload.len()) =~= payload);
        },
        Err((kind, code)) => {
            let at = layout.error_payload_offset + layout.kind_offset;
            let to = layout.error_payload_offset + layout.oscode_offset;
            assert(after.subrange(0, 4) =~= spec_u32_to_le_bytes(layout.error_tag as u32));
            assert(after.subrange(at, at + 4) =~= spec_u32_to_le_bytes(
                tags[kind_position(kind)] as u32,
            ));
            assert(after.subrange(to, to + 4) =~= spec_u32_to_le_bytes(code as u32));
        },
    }
}

/// What a read owes once the filesystem replied: the text at the address in the result
/// has exactly the bytes that the filesystem replied.
pub open spec fn reads(
    before: ExecutionContext,
    after: ExecutionContext,
    temporary: bool,
    reply: Result<Seq<u8>, FileSystemError>,
    blank: Seq<u8>,
    written: Seq<u8>,
    layout: ResultLayout,
    tags: Seq<i32>,
) -> bool {
    match reply {
        Err(error) => only_looks(before, after) && fails_with(
            blank,
            written,
            layout,
            tags,
            error,
        ),
        Ok(bytes) => {
            &&& bytes.len() > 67_108_864 ==> only_looks(before, after) && fails(
                blank,
                written,
                layout,
                tags,
                7,
                0,
            )
            &&& bytes.len() <= 67_108_864 && !valid_utf8(bytes) ==> only_looks(before, after)
                && fails(blank, written, layout, tags, 4, 0)
            &&& bytes.len() <= 67_108_864 && valid_utf8(bytes) ==> exists|result: Option<u64>|
                #![trigger makes_bytes(before, after, temporary, bytes, result)]
                makes_bytes(before, after, temporary, bytes, result) && gives(
                    blank,
                    written,
                    layout,
                    spec_u64_to_le_bytes(
                        match result {
                            Some(address) => address,
                            None => 0,
                        },
                    ),
                )
        },
    }
}

/// Reading a file asks the filesystem for it once, and gives exactly what it replied,
/// or its error.
pub proof fn law_read_all_text(
    temporary: bool,
    context: Option<&mut ExecutionContext>,
    path: Option<&[u8]>,
    destination: Option<&mut Vec<u8>>,
    layout: ResultLayout,
    tags: Option<&[i32; 9]>,
    name: Seq<char>,
)
    requires
        context matches Some(c) && c.wf(),
        carries(path, name),
        is_path(name),
        destination matches Some(d) && d@.len() >= layout.total_size,
        is_result_place(layout, 8),
        tags is Some,
        ({
            let arguments = (
                context,
                path,
                destination,
                layout.total_size,
                layout.ok_tag,
                layout.error_tag,
                layout.ok_payload_offset,
                layout.error_payload_offset,
                layout.kind_offset,
                layout.oscode_offset,
                tags,
            );
            if temporary {
                call_ensures(aster_rt_io_read_all_text_temporary, arguments, ())
            } else {
                call_ensures(aster_rt_io_read_all_text, arguments, ())
            }
        }),
    ensures
        exists|middle: ExecutionContext, reply: Result<Seq<u8>, FileSystemError>|
            {
                &&& #[trigger] has_asked(
                    *context->0,
                    middle,
                    FileCall::ReadAll { path: name, probe_limit: 67_108_865, reply },
                )
                &&& reads(
                    middle,
                    *final(context->0),
                    temporary,
                    reply,
                    destination->0@,
                    final(destination->0)@,
                    layout,
                    tags->0@,
                )
            },
{
    lemma_carries(path, name);
    lemma_auto_spec_u64_to_from_le_bytes();
    encode_utf8_decode_utf8(name);
    let before = *context->0;
    let after = *final(context->0);
    let blank = destination->0@;
    let written = final(destination->0)@;
    let p = encode_utf8(name);
    assert(after.read_text_outcome(before, p, temporary, blank, written, layout, tags->0@));
    let (middle, reply) = choose|
        middle: ExecutionContext,
        reply: Result<Seq<u8>, FileSystemError>,
    |
        {
            &&& #[trigger] middle.only_asked_files(
                before,
                FileCall::ReadAll { path: name, probe_limit: 67_108_865, reply },
            )
            &&& after.content_outcome(
                middle,
                reply,
                temporary,
                blank,
                written,
                layout,
                tags->0@,
            )
        };
    assert(has_asked(
        before,
        middle,
        FileCall::ReadAll { path: name, probe_limit: 67_108_865, reply },
    ));
    match reply {
        Err(error) => {
            lemma_gives(blank, layout, tags->0@, 8, Err(classified(error)));
        },
        Ok(bytes) => {
            lemma_gives(
                blank,
                layout,
                tags->0@,
                8,
                Err((PortableIoErrorKind::LimitExceeded, 0i32)),
            );
            lemma_gives(
                blank,
                layout,
                tags->0@,
                8,
                Err((PortableIoErrorKind::InvalidUtf8, 0i32)),
            );
            if bytes.len() <= 67_108_864 && valid_utf8(bytes) {
                let result = choose|result: Option<u64>|
                    {
                        &&& #[trigger] after.string_outcome(middle, temporary, bytes, result)
                        &&& written == result_written(
                            blank,
                            layout,
                            Ok(
                                spec_u64_to_le_bytes(
                                    match result {
                                        Some(address) => address,
                                        None => 0,
                                    },
                                ),
                            ),
                            tags->0@,
                        )
                    };
                let address = match result {
                    Some(address) => address,
                    None => 0,
                };
                lemma_gives(blank, layout, tags->0@, 8, Ok(spec_u64_to_le_bytes(address)));
                lemma_makes(middle, after, temporary, bytes, result);
            }
        },
    }
    assert(reads(middle, after, temporary, reply, blank, written, layout, tags->0@));
}

/// Writing or extending a file hands the filesystem the path and exactly the text, once,
/// and gives how many bytes that were, or the error.
pub proof fn law_write_all_text(
    append: bool,
    context: Option<&mut ExecutionContext>,
    path: Option<&[u8]>,
    content: Option<&[u8]>,
    destination: Option<&mut Vec<u8>>,
    layout: ResultLayout,
    tags: Option<&[i32; 9]>,
    name: Seq<char>,
    text: Seq<char>,
)
    requires
        context matches Some(c) && c.wf(),
        carries(path, name),
        carries(content, text),
        is_path(name),
        destination matches Some(d) && d@.len() >= layout.total_size,
        is_result_place(layout, 4),
        tags is Some,
        ({
            let arguments = (
                context,
                path,
                content,
                destination,
                layout.total_size,
                layout.ok_tag,
                layout.error_tag,
                layout.ok_payload_offset,
                layout.error_payload_offset,
                layout.kind_offset,
                layout.oscode_offset,
                tags,
            );
            if append {
                call_ensures(aster_rt_io_append_all_text, arguments, ())
            } else {
                call_ensures(aster_rt_io_write_all_text, arguments, ())
            }
        }),
    ensures
        ({
            let before = *context->0;
            let after = *final(context->0);
            let (blank, written) = (destination->0@, final(destination->0)@);
            let size = encode_utf8(text).len();
            &&& size > 67_108_864 ==> only_looks(before, after) && fails(
                blank,
                written,
                layout,
                tags->0@,
                7,
                0,
            )
            &&& size <= 67_108_864 ==> exists|reply: Result<(), FileSystemError>|
                {
                    &&& #[trigger] has_asked(
                        before,
                        after,
                        FileCall::WriteAll {
                            append,
                            path: name,
                            content: encode_utf8(text),
                            reply,
                        },
                    )
                    &&& reply is Ok ==> gives(
                        blank,
                        written,
                        layout,
                        spec_u32_to_le_bytes(size as u32),
                    )
                    &&& reply matches Err(error) ==> fails_with(
                        blank,
                        written,
                        layout,
                        tags->0@,
                        error,
                    )
                }
        }),
{
    lemma_carries(path, name);
    lemma_carries(content, text);
    lemma_auto_spec_u32_to_from_le_bytes();
    encode_utf8_decode_utf8(name);
    let before = *context->0;
    let after = *final(context->0);
    let blank = destination->0@;
    let size = encode_utf8(text).len();
    let bytes = encode_utf8(text);
    lemma_gives(
        blank,
        layout,
        tags->0@,
        4,
        Err((PortableIoErrorKind::LimitExceeded, 0i32)),
    );
    assert(after.write_text_outcome(
        before,
        append,
        encode_utf8(name),
        bytes,
        blank,
        final(destination->0)@,
        layout,
        tags->0@,
    ));
    if size <= 67_108_864 {
        let reply = choose|reply: Result<(), FileSystemError>|
            {
                &&& #[trigger] after.only_asked_files(
                    before,
                    FileCall::WriteAll { append, path: name, content: bytes, reply },
                )
                &&& final(destination->0)@ == result_written(
                    blank,
                    layout,
                    crate::files::write_answer(reply, size as int),
                    tags->0@,
                )
            };
        assert(has_asked(
            before,
            after,
            FileCall::WriteAll { append, path: name, content: bytes, reply },
        ));
        lemma_gives(
            blank,
            layout,
            tags->0@,
            4,
            crate::files::write_answer(reply, size as int),
        );
    }
}

/// What was written is read back: where the filesystem replies to a read with what the
/// write before handed over, the program gets exactly the text that it wrote.
pub proof fn law_written_text_is_read_back(
    first: ExecutionContext,
    second: ExecutionContext,
    middle: ExecutionContext,
    third: ExecutionContext,
    temporary: bool,
    name: Seq<char>,
    text: Seq<char>,
    answer: Result<(), FileSystemError>,
    reply: Result<Seq<u8>, FileSystemError>,
    blank: Seq<u8>,
    written: Seq<u8>,
    layout: ResultLayout,
    tags: Seq<i32>,
)
    requires
        encode_utf8(text).len() <= 67_108_864,
        has_asked(
            first,
            second,
            FileCall::WriteAll {
                append: false,
                path: name,
                content: encode_utf8(text),
                reply: answer,
            },
        ),
        second.file_calls().last() matches FileCall::WriteAll { content, .. } && reply == Ok::<
            Seq<u8>,
            FileSystemError,
        >(content),
        has_asked(
            second,
            middle,
            FileCall::ReadAll { path: name, probe_limit: 67_108_865, reply },
        ),
        reads(middle, third, temporary, reply, blank, written, layout, tags),
    ensures
        exists|result: Option<u64>|
            {
                &&& #[trigger] makes_bytes(middle, third, temporary, encode_utf8(text), result)
                &&& gives(
                    blank,
                    written,
                    layout,
                    spec_u64_to_le_bytes(
                        match result {
                            Some(address) => address,
                            None => 0,
                        },
                    ),
                )
            },
{
    encode_utf8_valid_utf8(text);
    assert(second.file_calls().last() == FileCall::WriteAll {
        append: false,
        path: name,
        content: encode_utf8(text),
        reply: answer,
    });
}

/// What can be asked about a path.
pub open spec fn question(code: i32) -> PathOperation
    recommends
        0 <= code < 5,
{
    if code == 0 {
        PathOperation::FileExists
    } else if code == 1 {
        PathOperation::DirectoryExists
    } else if code == 2 {
        PathOperation::CreateDirectory
    } else if code == 3 {
        PathOperation::DeleteFile
    } else {
        PathOperation::DeleteDirectory
    }
}

/// Each code asks its own question, once, and gives its answer, one for yes and zero for
/// no, or the error. Any other code is refused.
pub proof fn law_path_bool(
    context: Option<&mut ExecutionContext>,
    code: i32,
    path: Option<&[u8]>,
    destination: Option<&mut Vec<u8>>,
    layout: ResultLayout,
    tags: Option<&[i32; 9]>,
    name: Seq<char>,
)
    requires
        context matches Some(c) && c.wf(),
        carries(path, name),
        is_path(name),
        destination matches Some(d) && d@.len() >= layout.total_size,
        is_result_place(layout, 1),
        tags is Some,
        call_ensures(
            aster_rt_io_path_bool,
            (
                context,
                code,
                path,
                destination,
                layout.total_size,
                layout.ok_tag,
                layout.error_tag,
                layout.ok_payload_offset,
                layout.error_payload_offset,
                layout.kind_offset,
                layout.oscode_offset,
                tags,
            ),
            (),
        ),
    ensures
        ({
            let before = *context->0;
            let after = *final(context->0);
            let (blank, written) = (destination->0@, final(destination->0)@);
            &&& !(0 <= code < 5) ==> refuses(before, after) && written == blank
            &&& 0 <= code < 5 ==> exists|reply: Result<bool, FileSystemError>|
                {
                    &&& #[trigger] has_asked(
                        before,
                        after,
                        FileCall::Path { operation: question(code), path: name, reply },
                    )
                    &&& reply matches Ok(answer) ==> gives(
                        blank,
                        written,
                        layout,
                        seq![
                            if answer {
                                1u8
                            } else {
                                0u8
                            },
                        ],
                    )
                    &&& reply matches Err(error) ==> fails_with(
                        blank,
                        written,
                        layout,
                        tags->0@,
                        error,
                    )
                }
        }),
{
    lemma_carries(path, name);
    encode_utf8_decode_utf8(name);
    let before = *context->0;
    let after = *final(context->0);
    let blank = destination->0@;
    assert(after.path_outcome(
        before,
        code,
        encode_utf8(name),
        blank,
        final(destination->0)@,
        layout,
        tags->0@,
    ));
    if 0 <= code < 5 {
        let reply = choose|reply: Result<bool, FileSystemError>|
            {
                &&& #[trigger] after.only_asked_files(
                    before,
                    FileCall::Path { operation: question(code), path: name, reply },
                )
                &&& final(destination->0)@ == result_written(
                    blank,
                    layout,
                    crate::files::path_answer(reply),
                    tags->0@,
                )
            };
        assert(has_asked(
            before,
            after,
            FileCall::Path { operation: question(code), path: name, reply },
        ));
        lemma_gives(blank, layout, tags->0@, 1, crate::files::path_answer(reply));
    }
}

/// `a` comes before `b`, or is the same, when bytes are compared from the front: they
/// agree for a while, and there `a` ends or has the smaller byte.
pub open spec fn is_before(a: Seq<u8>, b: Seq<u8>) -> bool {
    exists|n: int|
        {
            &&& 0 <= n <= a.len()
            &&& n <= b.len()
            &&& #[trigger] a.take(n) == b.take(n)
            &&& n == a.len() || n < b.len() && a[n] < b[n]
        }
}

/// The same paths, each as often, in the order of their bytes.
pub open spec fn is_arranged(sorted: Seq<Seq<char>>, given: Seq<Seq<char>>) -> bool {
    &&& sorted.to_multiset() == given.to_multiset()
    &&& forall|i: int, j: int|
        0 <= i < j < sorted.len() ==> is_before(
            encode_utf8(#[trigger] sorted[i]),
            encode_utf8(#[trigger] sorted[j]),
        )
}

pub proof fn lemma_is_before(a: Seq<u8>, b: Seq<u8>)
    requires
        bytes_in_order(a, b),
    ensures
        is_before(a, b),
    decreases a.len(),
{
    if a.len() == 0 || a[0] < b[0] {
        assert(a.take(0) == b.take(0));
    } else {
        let (c, d) = (a.drop_first(), b.drop_first());
        lemma_is_before(c, d);
        let n = choose|n: int|
            {
                &&& 0 <= n <= c.len()
                &&& n <= d.len()
                &&& #[trigger] c.take(n) == d.take(n)
                &&& n == c.len() || n < d.len() && c[n] < d[n]
            };
        assert(a.take(n + 1) =~= seq![a[0]] + c.take(n));
        assert(b.take(n + 1) =~= seq![b[0]] + d.take(n));
        assert(a.take(n + 1) == b.take(n + 1));
        assert(n < c.len() ==> c[n] == a[n + 1]);
        assert(n < d.len() ==> d[n] == b[n + 1]);
    }
}

proof fn lemma_is_arranged(sorted: Seq<Seq<char>>, given: Seq<Seq<char>>)
    requires
        is_sorted_copy(sorted, given),
    ensures
        is_arranged(sorted, given),
{
    assert forall|i: int, j: int| 0 <= i < j < sorted.len() implies is_before(
        encode_utf8(#[trigger] sorted[i]),
        encode_utf8(#[trigger] sorted[j]),
    ) by {
        assert(in_order(sorted[i], sorted[j]));
        lemma_is_before(encode_utf8(sorted[i]), encode_utf8(sorted[j]));
    }
}

/// Sorting gives the same texts, each as often, in the order of their bytes.
pub proof fn law_sorting(given: Vec<String>, sorted: Vec<String>)
    requires
        call_ensures(sort_texts, (given,), sorted),
    ensures
        is_arranged(texts(sorted@), texts(given@)),
{
    lemma_is_arranged(texts(sorted@), texts(given@));
}

/// How many bytes paths take together.
pub open spec fn bytes_of_all(paths: Seq<Seq<char>>) -> int {
    paths.fold_left(0int, |n: int, path: Seq<char>| n + encode_utf8(path).len())
}

/// Every path is one that a file can have.
pub open spec fn are_paths(paths: Seq<Seq<char>>) -> bool {
    forall|i: int| 0 <= i < paths.len() ==> is_path(#[trigger] paths[i])
}

proof fn lemma_bytes_of_first(paths: Seq<Seq<char>>, k: int)
    requires
        0 <= k <= paths.len(),
    ensures
        0 <= bytes_of_all(paths.take(k)) <= bytes_of_all(paths),
        k < paths.len() ==> bytes_of_all(paths.take(k + 1)) == bytes_of_all(paths.take(k))
            + encode_utf8(paths[k]).len(),
    decreases paths.len(),
{
    if k < paths.len() {
        let shorter = paths.drop_last();
        lemma_bytes_of_first(shorter, k);
        assert(paths.take(k) =~= shorter.take(k));
        assert(bytes_of_all(paths) == bytes_of_all(shorter) + encode_utf8(paths.last()).len());
        assert(paths.take(k + 1).drop_last() =~= paths.take(k));
    } else {
        assert(paths.take(k) =~= paths);
        if paths.len() > 0 {
            let shorter = paths.drop_last();
            lemma_bytes_of_first(shorter, 0);
        }
    }
}

proof fn lemma_listing_fault_from(paths: Seq<Seq<char>>, from: int)
    requires
        0 <= from <= paths.len(),
        bytes_of_all(paths.take(from)) <= 67_108_864,
    ensures
        ({
            let fault = listing_fault_from(paths, from, bytes_of_all(paths.take(from)));
            let usable = forall|i: int| from <= i < paths.len() ==> is_path(#[trigger] paths[i]);
            &&& fault is None <==> usable && bytes_of_all(paths) <= 67_108_864
            &&& fault matches Some(kind) ==> {
                ||| kind == PortableIoErrorKind::InvalidPath && !usable
                ||| kind == PortableIoErrorKind::LimitExceeded && bytes_of_all(paths) > 67_108_864
            }
        }),
    decreases paths.len() - from,
{
    if from < paths.len() {
        lemma_bytes_of_first(paths, from);
        lemma_bytes_of_first(paths, from + 1);
        let path = encode_utf8(paths[from]);
        assert(is_path(paths[from]) <==> !is_invalid_path(path));
        if bytes_of_all(paths.take(from)) + path.len() <= 67_108_864 {
            lemma_listing_fault_from(paths, from + 1);
        }
    } else {
        assert(paths.take(from) =~= paths);
    }
}

proof fn lemma_listing_fault(paths: Seq<Seq<char>>)
    ensures
        listing_fault(paths) is None <==> paths.len() <= 100_000 && are_paths(paths)
            && bytes_of_all(paths) <= 67_108_864,
        listing_fault(paths) matches Some(kind) ==> {
            ||| kind == PortableIoErrorKind::InvalidPath && !are_paths(paths)
            ||| kind == PortableIoErrorKind::LimitExceeded && (paths.len() > 100_000
                || bytes_of_all(paths) > 67_108_864)
        },
{
    let none = paths.take(0);
    assert(none.len() == 0);
    assert(bytes_of_all(none) == 0);
    lemma_listing_fault_from(paths, 0);
}

/// What a listing owes once the filesystem replied: an array that names the paths of the
/// reply, and no others, in order.
pub open spec fn lists_paths(
    before: ExecutionContext,
    after: ExecutionContext,
    temporary: bool,
    reply: Result<Seq<Seq<char>>, FileSystemError>,
    blank: Seq<u8>,
    written: Seq<u8>,
    layout: ResultLayout,
    tags: Seq<i32>,
    result: Option<AsterArray>,
) -> bool {
    match reply {
        Err(error) => {
            &&& result is None
            &&& only_looks(before, after)
            &&& fails_with(blank, written, layout, tags, error)
        },
        Ok(listing) => exists|sorted: Seq<Seq<char>>|
            {
                let small = sorted.len() <= 100_000 && bytes_of_all(sorted) <= 67_108_864;
                &&& #[trigger] is_arranged(sorted, listing)
                &&& small && are_paths(sorted) ==> {
                    let pieces = sorted.map_values(|path: Seq<char>| encode_utf8(path));
                    &&& makes_list(before, after, temporary, pieces, result)
                    &&& result matches Some(array) ==> gives(
                        blank,
                        written,
                        layout,
                        spec_u64_to_le_bytes(array.address),
                    )
                    &&& result is None ==> written == blank
                }
                &&& !(small && are_paths(sorted)) ==> {
                    &&& result is None
                    &&& only_looks(before, after)
                    &&& {
                        ||| !small && fails(blank, written, layout, tags, 7, 0)
                        ||| !are_paths(sorted) && fails(blank, written, layout, tags, 3, 0)
                    }
                }
            },
    }
}

/// Listing a directory asks the filesystem once: for its directories where those are
/// wanted, and for its files where those are. The program gets the paths of the reply in
/// order, or its error.
pub proof fn law_list(
    directories: bool,
    temporary: bool,
    context: Option<&mut ExecutionContext>,
    directory: Option<&[u8]>,
    destination: Option<&mut Vec<u8>>,
    layout: ResultLayout,
    tags: Option<&[i32; 9]>,
    name: Seq<char>,
    result: Option<AsterArray>,
)
    requires
        context matches Some(c) && c.wf(),
        carries(directory, name),
        is_path(name),
        destination matches Some(d) && d@.len() >= layout.total_size,
        is_result_place(layout, 8),
        tags is Some,
        ({
            let arguments = (
                context,
                directory,
                destination,
                layout.total_size,
                layout.ok_tag,
                layout.error_tag,
                layout.ok_payload_offset,
                layout.error_payload_offset,
                layout.kind_offset,
                layout.oscode_offset,
                tags,
            );
            &&& directories && temporary ==> call_ensures(
                aster_rt_io_list_directories_temporary,
                arguments,
                result,
            )
            &&& directories && !temporary ==> call_ensures(
                aster_rt_io_list_directories,
                arguments,
                result,
            )
            &&& !directories && temporary ==> call_ensures(
                aster_rt_io_list_files_temporary,
                arguments,
                result,
            )
            &&& !directories && !temporary ==> call_ensures(
                aster_rt_io_list_files,
                arguments,
                result,
            )
        }),
    ensures
        exists|middle: ExecutionContext, reply: Result<Seq<Seq<char>>, FileSystemError>|
            {
                &&& #[trigger] has_asked(
                    *context->0,
                    middle,
                    FileCall::List {
                        directories,
                        directory: name,
                        max_entries: 100_000,
                        max_total_bytes: 67_108_864,
                        reply,
                    },
                )
                &&& lists_paths(
                    middle,
                    *final(context->0),
                    temporary,
                    reply,
                    destination->0@,
                    final(destination->0)@,
                    layout,
                    tags->0@,
                    result,
                )
            },
{
    lemma_carries(directory, name);
    lemma_auto_spec_u64_to_from_le_bytes();
    encode_utf8_decode_utf8(name);
    let before = *context->0;
    let after = *final(context->0);
    let blank = destination->0@;
    let written = final(destination->0)@;
    assert(after.list_outcome(
        before,
        encode_utf8(name),
        directories,
        temporary,
        blank,
        written,
        layout,
        tags->0@,
        result,
    ));
    let (middle, reply) = choose|
        middle: ExecutionContext,
        reply: Result<Seq<Seq<char>>, FileSystemError>,
    |
        {
            &&& #[trigger] middle.only_asked_files(
                before,
                FileCall::List {
                    directories,
                    directory: name,
                    max_entries: 100_000,
                    max_total_bytes: 67_108_864,
                    reply,
                },
            )
            &&& after.listing_outcome(
                middle,
                reply,
                temporary,
                blank,
                written,
                layout,
                tags->0@,
                result,
            )
        };
    assert(has_asked(
        before,
        middle,
        FileCall::List {
            directories,
            directory: name,
            max_entries: 100_000,
            max_total_bytes: 67_108_864,
            reply,
        },
    ));
    lemma_listing(middle, after, temporary, reply, blank, written, layout, tags->0@, result);
}

proof fn lemma_listing(
    before: ExecutionContext,
    after: ExecutionContext,
    temporary: bool,
    reply: Result<Seq<Seq<char>>, FileSystemError>,
    blank: Seq<u8>,
    written: Seq<u8>,
    layout: ResultLayout,
    tags: Seq<i32>,
    result: Option<AsterArray>,
)
    requires
        before.arenas_wf(),
        after.wf(),
        is_result_place(layout, 8),
        blank.len() >= layout.total_size,
        after.listing_outcome(
            before,
            reply,
            temporary,
            blank,
            written,
            layout,
            tags,
            result,
        ),
    ensures
        lists_paths(before, after, temporary, reply, blank, written, layout, tags, result),
{
    lemma_auto_spec_u64_to_from_le_bytes();
    match reply {
        Err(error) => {
            lemma_gives(blank, layout, tags, 8, Err(classified(error)));
        },
        Ok(listing) => {
            let sorted = choose|sorted: Seq<Seq<char>>|
                {
                    &&& #[trigger] is_sorted_copy(sorted, listing)
                    &&& match listing_fault(sorted) {
                        Some(kind) => {
                            &&& result is None
                            &&& after == before
                            &&& written == result_written(blank, layout, Err((kind, 0i32)), tags)
                        },
                        None => {
                            &&& after.strings_outcome(
                                before,
                                temporary,
                                encodings(sorted),
                                result,
                            )
                            &&& written == match result {
                                Some(array) => result_written(
                                    blank,
                                    layout,
                                    Ok(spec_u64_to_le_bytes(array.address)),
                                    tags,
                                ),
                                None => blank,
                            }
                        },
                    }
                };
            lemma_is_arranged(sorted, listing);
            lemma_listing_fault(sorted);
            let pieces = sorted.map_values(|path: Seq<char>| encode_utf8(path));
            assert(pieces =~= encodings(sorted));
            match listing_fault(sorted) {
                Some(kind) => {
                    lemma_gives(blank, layout, tags, 8, Err((kind, 0i32)));
                },
                None => {
                    lemma_makes_list(before, after, temporary, pieces, result);
                    if let Some(array) = result {
                        lemma_gives(
                            blank,
                            layout,
                            tags,
                            8,
                            Ok(spec_u64_to_le_bytes(array.address)),
                        );
                    }
                },
            }
            assert(is_arranged(sorted, listing));
        },
    }
}

/// An arrangement of paths names the same paths.
pub proof fn law_arranging_loses_nothing(
    sorted: Seq<Seq<char>>,
    given: Seq<Seq<char>>,
    path: Seq<char>,
)
    requires
        is_arranged(sorted, given),
    ensures
        sorted.len() == given.len(),
        sorted.contains(path) <==> given.contains(path),
{
    sorted.to_multiset_ensures();
    given.to_multiset_ensures();
    assert(sorted.to_multiset().count(path) == given.to_multiset().count(path));
}

/// What cannot be a path is refused with the category for that, whatever is to be done
/// with it, and no filesystem is asked.
pub open spec fn refuses_path(
    before: ExecutionContext,
    after: ExecutionContext,
    blank: Seq<u8>,
    written: Seq<u8>,
    layout: ResultLayout,
    tags: Seq<i32>,
) -> bool {
    only_looks(before, after) && fails(blank, written, layout, tags, 3, 0)
}

/// Nothing is read where the path cannot be one.
pub proof fn law_read_refuses_a_bad_path(
    temporary: bool,
    context: Option<&mut ExecutionContext>,
    path: Option<&[u8]>,
    destination: Option<&mut Vec<u8>>,
    layout: ResultLayout,
    tags: Option<&[i32; 9]>,
    name: Seq<char>,
)
    requires
        context matches Some(c) && c.wf(),
        carries(path, name),
        !is_path(name),
        destination matches Some(d) && d@.len() >= layout.total_size,
        is_result_place(layout, 8),
        tags is Some,
        ({
            let arguments = (
                context,
                path,
                destination,
                layout.total_size,
                layout.ok_tag,
                layout.error_tag,
                layout.ok_payload_offset,
                layout.error_payload_offset,
                layout.kind_offset,
                layout.oscode_offset,
                tags,
            );
            if temporary {
                call_ensures(aster_rt_io_read_all_text_temporary, arguments, ())
            } else {
                call_ensures(aster_rt_io_read_all_text, arguments, ())
            }
        }),
    ensures
        refuses_path(
            *context->0,
            *final(context->0),
            destination->0@,
            final(destination->0)@,
            layout,
            tags->0@,
        ),
{
    lemma_carries(path, name);
    lemma_gives(
        destination->0@,
        layout,
        tags->0@,
        8,
        Err((PortableIoErrorKind::InvalidPath, 0i32)),
    );
}

/// Nothing is listed where the path cannot be one.
pub proof fn law_list_refuses_a_bad_path(
    directories: bool,
    temporary: bool,
    context: Option<&mut ExecutionContext>,
    path: Option<&[u8]>,
    destination: Option<&mut Vec<u8>>,
    layout: ResultLayout,
    tags: Option<&[i32; 9]>,
    name: Seq<char>,
    result: Option<AsterArray>,
)
    requires
        context matches Some(c) && c.wf(),
        carries(path, name),
        !is_path(name),
        destination matches Some(d) && d@.len() >= layout.total_size,
        is_result_place(layout, 8),
        tags is Some,
        ({
            let arguments = (
                context,
                path,
                destination,
                layout.total_size,
                layout.ok_tag,
                layout.error_tag,
                layout.ok_payload_offset,
                layout.error_payload_offset,
                layout.kind_offset,
                layout.oscode_offset,
                tags,
            );
            &&& directories && temporary ==> call_ensures(
                aster_rt_io_list_directories_temporary,
                arguments,
                result,
            )
            &&& directories && !temporary ==> call_ensures(
                aster_rt_io_list_directories,
                arguments,
                result,
            )
            &&& !directories && temporary ==> call_ensures(
                aster_rt_io_list_files_temporary,
                arguments,
                result,
            )
            &&& !directories && !temporary ==> call_ensures(
                aster_rt_io_list_files,
                arguments,
                result,
            )
        }),
    ensures
        refuses_path(
            *context->0,
            *final(context->0),
            destination->0@,
            final(destination->0)@,
            layout,
            tags->0@,
        ),
        result is None,
{
    lemma_carries(path, name);
    lemma_gives(
        destination->0@,
        layout,
        tags->0@,
        8,
        Err((PortableIoErrorKind::InvalidPath, 0i32)),
    );
}

/// Nothing is written where the path cannot be one.
pub proof fn law_write_refuses_a_bad_path(
    append: bool,
    context: Option<&mut ExecutionContext>,
    path: Option<&[u8]>,
    content: Option<&[u8]>,
    destination: Option<&mut Vec<u8>>,
    layout: ResultLayout,
    tags: Option<&[i32; 9]>,
    name: Seq<char>,
    text: Seq<char>,
)
    requires
        context matches Some(c) && c.wf(),
        carries(path, name),
        !is_path(name),
        carries(content, text),
        destination matches Some(d) && d@.len() >= layout.total_size,
        is_result_place(layout, 4),
        tags is Some,
        ({
            let arguments = (
                context,
                path,
                content,
                destination,
                layout.total_size,
                layout.ok_tag,
                layout.error_tag,
                layout.ok_payload_offset,
                layout.error_payload_offset,
                layout.kind_offset,
                layout.oscode_offset,
                tags,
            );
            if append {
                call_ensures(aster_rt_io_append_all_text, arguments, ())
            } else {
                call_ensures(aster_rt_io_write_all_text, arguments, ())
            }
        }),
    ensures
        refuses_path(
            *context->0,
            *final(context->0),
            destination->0@,
            final(destination->0)@,
            layout,
            tags->0@,
        ),
{
    lemma_carries(path, name);
    lemma_carries(content, text);
    lemma_gives(
        destination->0@,
        layout,
        tags->0@,
        4,
        Err((PortableIoErrorKind::InvalidPath, 0i32)),
    );
}

/// Nothing is asked where the path cannot be one, whatever the question.
pub proof fn law_path_bool_refuses_a_bad_path(
    context: Option<&mut ExecutionContext>,
    code: i32,
    path: Option<&[u8]>,
    destination: Option<&mut Vec<u8>>,
    layout: ResultLayout,
    tags: Option<&[i32; 9]>,
    name: Seq<char>,
)
    requires
        context matches Some(c) && c.wf(),
        carries(path, name),
        !is_path(name),
        destination matches Some(d) && d@.len() >= layout.total_size,
        is_result_place(layout, 1),
        tags is Some,
        ({
            let arguments = (
                context,
                code,
                path,
                destination,
                layout.total_size,
                layout.ok_tag,
                layout.error_tag,
                layout.ok_payload_offset,
                layout.error_payload_offset,
                layout.kind_offset,
                layout.oscode_offset,
                tags,
            );
            call_ensures(aster_rt_io_path_bool, arguments, ())
        }),
    ensures
        refuses_path(
            *context->0,
            *final(context->0),
            destination->0@,
            final(destination->0)@,
            layout,
            tags->0@,
        ),
{
    lemma_carries(path, name);
    lemma_gives(
        destination->0@,
        layout,
        tags->0@,
        1,
        Err((PortableIoErrorKind::InvalidPath, 0i32)),
    );
}

/// A result has no place: there is no destination, a size or an offset is negative, or
/// something does not fit.
pub open spec fn lacks_place(has_destination: bool, layout: ResultLayout, size: int) -> bool {
    ||| !has_destination
    ||| layout.total_size < 4
    ||| layout.ok_payload_offset < 0
    ||| layout.error_payload_offset < 0
    ||| layout.kind_offset < 0
    ||| layout.oscode_offset < 0
    ||| layout.ok_payload_offset + size > layout.total_size
    ||| layout.error_payload_offset + layout.kind_offset + 4 > layout.total_size
    ||| layout.error_payload_offset + layout.oscode_offset + 4 > layout.total_size
}

/// Nothing is read, listed, written or asked where the result has no place, or where the
/// path is no text: that is reported, no filesystem is asked, and nothing is written.
pub proof fn law_files_refuse(
    context: Option<&mut ExecutionContext>,
    path: Option<&[u8]>,
    content: Option<&[u8]>,
    code: i32,
    destination: Option<&mut Vec<u8>>,
    layout: ResultLayout,
    tags: Option<&[i32; 9]>,
    result: Option<AsterArray>,
    size: int,
)
    requires
        context matches Some(c) && c.wf(),
        lacks_place(destination is Some, layout, size) || tags is None || forall|name: Seq<char>|
            !#[trigger] carries(path, name),
        ({
            let layout_arguments = (
                layout.total_size,
                layout.ok_tag,
                layout.error_tag,
                layout.ok_payload_offset,
                layout.error_payload_offset,
                layout.kind_offset,
                layout.oscode_offset,
            );
            let (a, b, c, d, e, f, g) = layout_arguments;
            ||| size == 8 && call_ensures(
                aster_rt_io_read_all_text,
                (context, path, destination, a, b, c, d, e, f, g, tags),
                (),
            )
            ||| size == 8 && call_ensures(
                aster_rt_io_read_all_text_temporary,
                (context, path, destination, a, b, c, d, e, f, g, tags),
                (),
            )
            ||| size == 8 && call_ensures(
                aster_rt_io_list_files,
                (context, path, destination, a, b, c, d, e, f, g, tags),
                result,
            )
            ||| size == 8 && call_ensures(
                aster_rt_io_list_directories,
                (context, path, destination, a, b, c, d, e, f, g, tags),
                result,
            )
            ||| size == 4 && call_ensures(
                aster_rt_io_write_all_text,
                (context, path, content, destination, a, b, c, d, e, f, g, tags),
                (),
            )
            ||| size == 4 && call_ensures(
                aster_rt_io_append_all_text,
                (context, path, content, destination, a, b, c, d, e, f, g, tags),
                (),
            )
            ||| size == 1 && call_ensures(
                aster_rt_io_path_bool,
                (context, code, path, destination, a, b, c, d, e, f, g, tags),
                (),
            )
        }),
    ensures
        refuses(*context->0, *final(context->0)),
        destination matches Some(d) ==> final(d)@ == d@,
{
    lemma_payload_is_carried(path);
    if let Some(bytes) = text_payload(path) {
        decode_utf8_encode_utf8(bytes);
        assert(carries(path, decode_utf8(bytes)));
    }
}

} // verus!

//! What a filesystem that lives in memory is for: it keeps what it is given, and lists
//! what lies directly in a directory.

use vstd::prelude::*;
use vstd::utf8::*;

use crate::file_laws::{bytes_of_all, is_before, lemma_is_before};
use crate::filesystem::{
    listing_fits, texts, total_bytes, FileSystemBackend, FileSystemError,
};
use crate::memory_files::{
    is_listed, is_listing, law_total_bytes_ignores_order, MemoryFileSystemBackend, StoredEntry,
};
use crate::ordering::law_sorting_has_one_result;
use crate::paths::{is_child, is_direct_child, is_name, names, names_from, next_slash};
use crate::scalars::{lemma_encode_concat, lemma_encode_one};

verus! {

/// The file at a path has these bytes.
pub open spec fn is_file(
    files: Map<Seq<char>, StoredEntry>,
    path: Seq<char>,
    content: Seq<u8>,
) -> bool {
    files.contains_key(path) && files[path] == StoredEntry::File(content)
}

/// At every other path there is what was there.
pub open spec fn differs_only_at(
    before: Map<Seq<char>, StoredEntry>,
    after: Map<Seq<char>, StoredEntry>,
    path: Seq<char>,
) -> bool {
    forall|other: Seq<char>|
        other != path ==> {
            &&& #[trigger] after.contains_key(other) == before.contains_key(other)
            &&& before.contains_key(other) ==> after[other] == before[other]
        }
}

/// Writing stores the bytes in the file, which is made if there is nothing, and changes
/// nothing else. What is no file is not written.
pub proof fn law_memory_write(
    files: &mut MemoryFileSystemBackend,
    path: &str,
    content: &[u8],
    result: Result<(), FileSystemError>,
)
    requires
        call_ensures(
            <MemoryFileSystemBackend as FileSystemBackend>::write_all,
            (files, path, content),
            result,
        ),
    ensures
        result is Ok ==> {
            &&& is_file(final(files)@, path@, content@)
            &&& differs_only_at(old(files)@, final(files)@, path@)
        },
        result is Err ==> final(files)@ == old(files)@,
        result is Ok <==> !old(files)@.contains_key(path@) || old(files)@[path@] is File,
        result is Err ==> result->Err_0 is NotFile,
{
}

/// Appending stores the bytes behind those of the file, which is made if there is
/// nothing, and changes nothing else.
pub proof fn law_memory_append(
    files: &mut MemoryFileSystemBackend,
    path: &str,
    content: &[u8],
    result: Result<(), FileSystemError>,
    earlier: Seq<u8>,
)
    requires
        call_ensures(
            <MemoryFileSystemBackend as FileSystemBackend>::append_all,
            (files, path, content),
            result,
        ),
        files@.contains_key(path@) ==> (files@[path@] is File ==> files@[path@]
            == StoredEntry::File(earlier)),
        !files@.contains_key(path@) ==> earlier.len() == 0,
    ensures
        result is Ok ==> {
            &&& is_file(final(files)@, path@, earlier + content@)
            &&& differs_only_at(old(files)@, final(files)@, path@)
        },
        result is Err ==> final(files)@ == old(files)@,
        result is Ok <==> !old(files)@.contains_key(path@) || old(files)@[path@] is File,
{
    if !files@.contains_key(path@) {
        assert(earlier + content@ =~= content@);
    }
}

/// Reading gives the bytes of the file, as many as were asked for at most.
pub proof fn law_memory_read(
    files: &mut MemoryFileSystemBackend,
    path: &str,
    limit: u64,
    result: Result<Vec<u8>, FileSystemError>,
    content: Seq<u8>,
)
    requires
        call_ensures(
            <MemoryFileSystemBackend as FileSystemBackend>::read_all,
            (files, path, limit),
            result,
        ),
    ensures
        final(files)@ == old(files)@,
        is_file(old(files)@, path@, content) ==> {
            &&& result is Ok
            &&& content.len() <= limit ==> result->Ok_0@ == content
            &&& content.len() > limit ==> result->Ok_0@.len() == limit
                && result->Ok_0@.is_prefix_of(content)
        },
        result is Ok <==> old(files)@.contains_key(path@) && old(files)@[path@] is File,
{
    if is_file(files@, path@, content) && content.len() > limit {
        assert(content.take(limit as int) =~= content.subrange(0, limit as int));
    }
}

/// What was written is read back.
pub proof fn law_memory_write_then_read(
    files: &mut MemoryFileSystemBackend,
    later: &mut MemoryFileSystemBackend,
    path: &str,
    content: &[u8],
    limit: u64,
    written: Result<(), FileSystemError>,
    read: Result<Vec<u8>, FileSystemError>,
)
    requires
        call_ensures(
            <MemoryFileSystemBackend as FileSystemBackend>::write_all,
            (files, path, content),
            written,
        ),
        written is Ok,
        *later == *final(files),
        content@.len() <= limit,
        call_ensures(
            <MemoryFileSystemBackend as FileSystemBackend>::read_all,
            (later, path, limit),
            read,
        ),
    ensures
        read matches Ok(bytes) && bytes@ == content@,
{
    law_memory_write(files, path, content, written);
    law_memory_read(later, path, limit, read, content@);
}

/// What is asked about a path is answered by what is there, and changes nothing.
pub proof fn law_memory_exists(
    directory: bool,
    files: &mut MemoryFileSystemBackend,
    path: &str,
    result: Result<bool, FileSystemError>,
)
    requires
        directory ==> call_ensures(
            <MemoryFileSystemBackend as FileSystemBackend>::directory_exists,
            (files, path),
            result,
        ),
        !directory ==> call_ensures(
            <MemoryFileSystemBackend as FileSystemBackend>::file_exists,
            (files, path),
            result,
        ),
    ensures
        final(files)@ == old(files)@,
        result is Ok,
        directory ==> (result->Ok_0 <==> old(files)@.contains_key(path@) && old(files)@[path@]
            == StoredEntry::Directory),
        !directory ==> (result->Ok_0 <==> exists|content: Seq<u8>|
            is_file(old(files)@, path@, content)),
{
    if !directory {
        if result->Ok_0 {
            assert(is_file(files@, path@, files@[path@]->File_0));
        }
    }
}

/// Making a directory makes it where there is nothing, and changes nothing else.
pub proof fn law_memory_create_directory(
    files: &mut MemoryFileSystemBackend,
    path: &str,
    result: Result<bool, FileSystemError>,
)
    requires
        call_ensures(
            <MemoryFileSystemBackend as FileSystemBackend>::create_directory,
            (files, path),
            result,
        ),
    ensures
        !old(files)@.contains_key(path@) ==> {
            &&& (result matches Ok(true))
            &&& final(files)@.contains_key(path@)
            &&& final(files)@[path@] == StoredEntry::Directory
            &&& differs_only_at(old(files)@, final(files)@, path@)
        },
        old(files)@.contains_key(path@) ==> {
            &&& final(files)@ == old(files)@
            &&& old(files)@[path@] is Directory ==> (result matches Ok(false))
            &&& old(files)@[path@] !is Directory ==> (result matches Err(
                FileSystemError::NotDirectory,
            ))
        },
{
}

/// Deleting takes a file, or a directory with nothing in it, away, and changes nothing
/// else. Where there is nothing, nothing happens.
pub proof fn law_memory_delete(
    directory: bool,
    files: &mut MemoryFileSystemBackend,
    path: &str,
    result: Result<bool, FileSystemError>,
)
    requires
        directory ==> call_ensures(
            <MemoryFileSystemBackend as FileSystemBackend>::delete_directory,
            (files, path),
            result,
        ),
        !directory ==> call_ensures(
            <MemoryFileSystemBackend as FileSystemBackend>::delete_file,
            (files, path),
            result,
        ),
    ensures
        !old(files)@.contains_key(path@) <==> result matches Ok(false),
        result matches Ok(true) ==> {
            &&& !final(files)@.contains_key(path@)
            &&& differs_only_at(old(files)@, final(files)@, path@)
            &&& directory ==> old(files)@[path@] is Directory
            &&& !directory ==> old(files)@[path@] is File
        },
        !(result matches Ok(true)) ==> final(files)@ == old(files)@,
        !directory && old(files)@.contains_key(path@) && old(files)@[path@] is File ==> (result
            matches Ok(true)),
{
}

/// A plain name: not empty, not a dot, and without a slash.
pub open spec fn is_plain(name: Seq<u8>) -> bool {
    &&& name.len() > 0
    &&& name != seq![46u8]
    &&& forall|i: int| 0 <= i < name.len() ==> #[trigger] name[i] != 47
}

proof fn lemma_slash_in(path: Seq<u8>, more: Seq<u8>, from: int)
    requires
        0 <= from <= path.len(),
        more.len() > 0,
        more[0] == 47,
    ensures
        next_slash(path + more, from) == next_slash(path, from),
        from <= next_slash(path, from) <= path.len(),
    decreases path.len() - from,
{
    let whole = path + more;
    if from < path.len() {
        assert(whole[from] == path[from]);
        if path[from] != 47 {
            lemma_slash_in(path, more, from + 1);
        }
    } else {
        assert(whole[from] == more[0]);
    }
}

proof fn lemma_no_slash(path: Seq<u8>, from: int)
    requires
        0 <= from <= path.len(),
        forall|i: int| from <= i < path.len() ==> #[trigger] path[i] != 47,
    ensures
        next_slash(path, from) == path.len(),
    decreases path.len() - from,
{
    if from < path.len() {
        assert(path[from] != 47);
        lemma_no_slash(path, from + 1);
    }
}

/// A name behind a slash is one name more.
proof fn lemma_one_more_name(path: Seq<u8>, name: Seq<u8>, from: int)
    requires
        is_plain(name),
        0 <= from <= path.len() + 1,
    ensures
        from <= path.len() ==> names_from(path + (seq![47u8] + name), from) == names_from(
            path,
            from,
        ).push(name),
        from == path.len() + 1 ==> names_from(path + (seq![47u8] + name), from) == seq![name],
    decreases path.len() + 1 - from,
{
    let more = seq![47u8] + name;
    let whole = path + more;
    if from == path.len() + 1 {
        assert forall|i: int| from <= i < whole.len() implies #[trigger] whole[i] != 47 by {
            assert(whole[i] == name[i - from]);
        }
        lemma_no_slash(whole, from);
        assert(whole.subrange(from, whole.len() as int) =~= name);
        assert(names_from(whole, whole.len() as int + 1) =~= Seq::<Seq<u8>>::empty());
        assert(is_name(name, from));
        assert(names_from(whole, from) =~= seq![name]);
    } else {
        lemma_slash_in(path, more, from);
        let end = next_slash(path, from);
        lemma_one_more_name(path, name, end + 1);
        let part = path.subrange(from, end);
        assert(whole.subrange(from, end) =~= part);
        if end == path.len() {
            assert(names_from(path, end + 1) =~= Seq::<Seq<u8>>::empty());
        }
        assert(names_from(whole, from) =~= names_from(path, from).push(name));
    }
}

/// A slash at the end of a path separates nothing.
proof fn lemma_slash_at_the_end(path: Seq<u8>, from: int)
    requires
        0 <= from <= path.len() + 1,
    ensures
        from <= path.len() ==> names_from(path + seq![47u8], from) == names_from(path, from),
        from == path.len() + 1 ==> names_from(path + seq![47u8], from) == Seq::<Seq<u8>>::empty(),
    decreases path.len() + 1 - from,
{
    let more = seq![47u8];
    let whole = path + more;
    if from == path.len() + 1 {
        lemma_no_slash(whole, from);
        assert(whole.subrange(from, whole.len() as int) =~= Seq::<u8>::empty());
        assert(names_from(whole, whole.len() as int + 1) =~= Seq::<Seq<u8>>::empty());
    } else {
        lemma_slash_in(path, more, from);
        let end = next_slash(path, from);
        lemma_slash_at_the_end(path, end + 1);
        assert(whole.subrange(from, end) =~= path.subrange(from, end));
        if end == path.len() {
            assert(names_from(path, end + 1) =~= Seq::<Seq<u8>>::empty());
        }
    }
}

/// A path is directly below a directory just when it is the path of the directory, a
/// slash and one name, whether or not the directory is written with a slash at its end.
/// What lies deeper is not directly below, and a directory is not below itself.
pub proof fn law_direct_children(
    directory: Seq<u8>,
    name: Seq<u8>,
    deeper: Seq<u8>,
    below: &[u8],
    far_below: &[u8],
    itself: &[u8],
    with_slash: &[u8],
    is_below: bool,
    is_below_slash: bool,
    is_far_below: bool,
    is_below_itself: bool,
)
    requires
        directory.len() > 0,
        is_plain(name),
        is_plain(deeper),
        itself@ == directory,
        with_slash@ == directory + seq![47u8],
        below@ == directory + (seq![47u8] + name),
        far_below@ == below@ + (seq![47u8] + deeper),
        call_ensures(is_direct_child, (below, itself), is_below),
        call_ensures(is_direct_child, (below, with_slash), is_below_slash),
        call_ensures(is_direct_child, (far_below, itself), is_far_below),
        call_ensures(is_direct_child, (itself, itself), is_below_itself),
    ensures
        is_below,
        is_below_slash,
        !is_far_below,
        !is_below_itself,
{
    lemma_one_more_name(directory, name, 0);
    lemma_one_more_name(below@, deeper, 0);
    lemma_slash_at_the_end(directory, 0);
    assert(below@[0] == directory[0]);
    assert(with_slash@[0] == directory[0]);
    assert(names(below@).drop_last() =~= names(directory));
    assert(names(far_below@).drop_last() =~= names(below@));
}

/// The bytes of a path that a name is put behind.
proof fn lemma_below(directory: Seq<char>, name: Seq<char>)
    ensures
        encode_utf8(directory + seq!['/'] + name) == encode_utf8(directory) + (seq![47u8]
            + encode_utf8(name)),
{
    lemma_encode_concat(directory + seq!['/'], name);
    lemma_encode_concat(directory, seq!['/']);
    lemma_encode_one('/');
    assert((0x2fu32 & 0x7f) as u8 == 0x2f) by (bit_vector);
    assert(encode_utf8(seq!['/']) =~= seq![47u8]);
    assert(encode_utf8(directory) + seq![47u8] + encode_utf8(name) =~= encode_utf8(directory) + (
    seq![47u8] + encode_utf8(name)));
}

pub proof fn lemma_bytes_of_all(paths: Seq<Seq<char>>)
    ensures
        total_bytes(paths) == bytes_of_all(paths),
    decreases paths.len(),
{
    if paths.len() > 0 {
        lemma_bytes_of_all(paths.drop_last());
    }
}

/// A dot between two slashes stands for nothing.
proof fn lemma_dot_stands_for_nothing(path: Seq<u8>, from: int)
    requires
        0 <= from <= path.len() + 1,
    ensures
        from <= path.len() ==> names_from(path + seq![47u8, 46u8], from) == names_from(path, from),
        from == path.len() + 1 ==> names_from(path + seq![47u8, 46u8], from) == Seq::<
            Seq<u8>,
        >::empty(),
    decreases path.len() + 1 - from,
{
    let more = seq![47u8, 46u8];
    let whole = path + more;
    if from == path.len() + 1 {
        assert forall|i: int| from <= i < whole.len() implies #[trigger] whole[i] != 47 by {}
        lemma_no_slash(whole, from);
        assert(whole.subrange(from, whole.len() as int) =~= seq![46u8]);
        assert(names_from(whole, whole.len() as int + 1) =~= Seq::<Seq<u8>>::empty());
        assert(names_from(whole, from) =~= Seq::<Seq<u8>>::empty());
    } else {
        lemma_slash_in(path, more, from);
        let end = next_slash(path, from);
        lemma_dot_stands_for_nothing(path, end + 1);
        assert(whole.subrange(from, end) =~= path.subrange(from, end));
        if end == path.len() {
            assert(names_from(path, end + 1) =~= Seq::<Seq<u8>>::empty());
        }
    }
}

/// A dot between two slashes does not change which directory a path lies in.
pub proof fn law_dots_stand_for_nothing(
    directory: Seq<u8>,
    name: Seq<u8>,
    below: &[u8],
    itself: &[u8],
    is_below: bool,
)
    requires
        directory.len() > 0,
        is_plain(name),
        itself@ == directory,
        below@ == directory + seq![47u8, 46u8] + (seq![47u8] + name),
        call_ensures(is_direct_child, (below, itself), is_below),
    ensures
        is_below,
{
    lemma_dot_stands_for_nothing(directory, 0);
    lemma_one_more_name(directory + seq![47u8, 46u8], name, 0);
    assert(below@[0] == directory[0]);
    assert(names(below@).drop_last() =~= names(directory));
}

/// A listing names what lies directly in a directory and is of the kind that was asked
/// for, each once: a name behind the path of the directory is listed just when there is
/// such a file, or such a directory, and what lies deeper is not listed.
pub proof fn law_memory_list(
    directories: bool,
    files: &mut MemoryFileSystemBackend,
    directory: &str,
    max_entries: usize,
    max_total_bytes: usize,
    result: Result<Vec<String>, FileSystemError>,
    name: Seq<char>,
    deeper: Seq<char>,
)
    requires
        directories ==> call_ensures(
            <MemoryFileSystemBackend as FileSystemBackend>::list_directories,
            (files, directory, max_entries, max_total_bytes),
            result,
        ),
        !directories ==> call_ensures(
            <MemoryFileSystemBackend as FileSystemBackend>::list_files,
            (files, directory, max_entries, max_total_bytes),
            result,
        ),
        directory@.len() > 0,
        is_plain(encode_utf8(name)),
        is_plain(encode_utf8(deeper)),
    ensures
        final(files)@ == old(files)@,
        result matches Ok(paths) ==> {
            let path = directory@ + seq!['/'] + name;
            let found = texts(paths@);
            &&& old(files)@.contains_key(directory@) && old(files)@[directory@] is Directory
            &&& found.no_duplicates()
            &&& directories ==> (found.contains(path) <==> old(files)@.contains_key(path)
                && old(files)@[path] is Directory)
            &&& !directories ==> (found.contains(path) <==> old(files)@.contains_key(path)
                && old(files)@[path] is File)
            &&& !found.contains(path + seq!['/'] + deeper)
            &&& !found.contains(directory@)
            &&& forall|listed: Seq<char>| #[trigger]
                found.contains(listed) ==> old(files)@.contains_key(listed)
            &&& found.len() <= max_entries
            &&& bytes_of_all(found) <= max_total_bytes
            &&& forall|i: int, j: int|
                0 <= i < j < found.len() ==> is_before(
                    encode_utf8(#[trigger] found[i]),
                    encode_utf8(#[trigger] found[j]),
                )
        },
        !old(files)@.contains_key(directory@) ==> result is Err,
        old(files)@.contains_key(directory@) && old(files)@[directory@] !is Directory ==> (result
            matches Err(FileSystemError::NotDirectory)),
{
    if let Ok(paths) = result {
        let found = texts(paths@);
        let path = directory@ + seq!['/'] + name;
        let d = encode_utf8(directory@);
        let p = encode_utf8(path);
        lemma_bytes_of_all(found);
        lemma_below(directory@, name);
        lemma_below(path, deeper);
        lemma_one_more_name(d, encode_utf8(name), 0);
        lemma_one_more_name(p, encode_utf8(deeper), 0);
        encode_utf8_decode_utf8(directory@);
        assert(d.len() > 0) by {
            if d.len() == 0 {
                assert(d =~= encode_utf8(Seq::<char>::empty()));
                encode_utf8_decode_utf8(Seq::<char>::empty());
                assert(directory@ =~= Seq::<char>::empty());
            }
        }
        assert(p[0] == d[0]);
        assert(names(p).drop_last() =~= names(d));
        assert(is_child(p, d));
        let q = encode_utf8(path + seq!['/'] + deeper);
        assert(names(q).drop_last() =~= names(p));
        assert(names(p).len() == names(d).len() + 1);
        assert(!is_child(q, d));
        assert(!is_child(d, d));
        assert forall|i: int, j: int| 0 <= i < j < found.len() implies is_before(
            encode_utf8(#[trigger] found[i]),
            encode_utf8(#[trigger] found[j]),
        ) by {
            lemma_is_before(encode_utf8(found[i]), encode_utf8(found[j]));
        }
        let files = files@;
        if found.contains(path) {
            assert(is_listed(path, files[path], directory@, directories));
        }
        if found.contains(path + seq!['/'] + deeper) {
            assert(is_listed(
                path + seq!['/'] + deeper,
                files[path + seq!['/'] + deeper],
                directory@,
                directories,
            ));
        }
        if found.contains(directory@) {
            assert(is_listed(directory@, files[directory@], directory@, directories));
        }
    }
}

proof fn lemma_same_members(a: Seq<Seq<char>>, b: Seq<Seq<char>>)
    requires
        a.no_duplicates(),
        b.no_duplicates(),
        forall|path: Seq<char>| #[trigger] a.contains(path) <==> b.contains(path),
    ensures
        a.to_multiset() == b.to_multiset(),
{
    a.lemma_multiset_has_no_duplicates();
    b.lemma_multiset_has_no_duplicates();
    a.to_multiset_ensures();
    b.to_multiset_ensures();
    assert forall|path: Seq<char>| a.to_multiset().count(path) == b.to_multiset().count(path) by {
        assert(a.contains(path) <==> b.contains(path));
    }
    assert(a.to_multiset() =~= b.to_multiset());
}

/// Limits decide whether there is a listing, and not what it says: with room for as many
/// paths and as many bytes the same paths are listed again, and with less room none are.
pub proof fn law_memory_list_is_whole(
    directories: bool,
    files: &mut MemoryFileSystemBackend,
    others: &mut MemoryFileSystemBackend,
    directory: &str,
    limits: (usize, usize),
    other_limits: (usize, usize),
    paths: Vec<String>,
    result: Result<Vec<String>, FileSystemError>,
)
    requires
        old(files)@ == old(others)@,
        directories ==> call_ensures(
            <MemoryFileSystemBackend as FileSystemBackend>::list_directories,
            (files, directory, limits.0, limits.1),
            Ok(paths),
        ) && call_ensures(
            <MemoryFileSystemBackend as FileSystemBackend>::list_directories,
            (others, directory, other_limits.0, other_limits.1),
            result,
        ),
        !directories ==> call_ensures(
            <MemoryFileSystemBackend as FileSystemBackend>::list_files,
            (files, directory, limits.0, limits.1),
            Ok(paths),
        ) && call_ensures(
            <MemoryFileSystemBackend as FileSystemBackend>::list_files,
            (others, directory, other_limits.0, other_limits.1),
            result,
        ),
    ensures
        texts(paths@).len() <= other_limits.0 && bytes_of_all(texts(paths@)) <= other_limits.1 ==> (
        result matches Ok(found) && texts(found@) == texts(paths@)),
        texts(paths@).len() > other_limits.0 || bytes_of_all(texts(paths@)) > other_limits.1 ==> (
        result matches Err(FileSystemError::LimitExceeded)),
{
    let listed = texts(paths@);
    let there = files@;
    lemma_bytes_of_all(listed);
    assert(is_listing(there, directory@, directories, listed));
    match result {
        Ok(found) => {
            let again = texts(found@);
            assert(is_listing(there, directory@, directories, again));
            lemma_same_members(listed, again);
            lemma_bytes_of_all(again);
            law_sorting_has_one_result(listed, again, listed);
        },
        Err(_) => {
            let again = choose|again: Seq<Seq<char>>|
                {
                    &&& #[trigger] is_listing(there, directory@, directories, again)
                    &&& !listing_fits(again, other_limits.0, other_limits.1)
                };
            lemma_same_members(listed, again);
            law_total_bytes_ignores_order(listed, again);
        },
    }
}

} // verus!

//! Filesystems that live in memory, or fail in a chosen way, so that programs run
//! without touching the real one.

use vstd::prelude::*;
use vstd::slice::slice_to_vec;
use vstd::utf8::*;

use crate::filesystem::{
    collect_list_path, content_reply, is_host_error, listing_fits, no_append, no_listing,
    paths_reply, texts, total_bytes, FileCall, FileSystemBackend, FileSystemError, PathOperation,
};
use crate::io_error::{kind_text, HostIoError, HostIoErrorKind};
use crate::memory::same_bytes;
use crate::ordering::{ordered, sort_texts};
use crate::paths::{is_child, is_direct_child};

verus! {

/// What is stored at a path.
enum MemoryEntry {
    File(Vec<u8>),
    Directory,
    Symlink,
    Other,
}

struct NamedEntry {
    path: String,
    entry: MemoryEntry,
}

/// What a filesystem holds at a path.
#[verifier::ext_equal]
pub enum StoredEntry {
    File(Seq<u8>),
    Directory,
    Symlink,
    Other,
}

impl MemoryEntry {
    spec fn stored(self) -> StoredEntry {
        match self {
            MemoryEntry::File(bytes) => StoredEntry::File(bytes@),
            MemoryEntry::Directory => StoredEntry::Directory,
            MemoryEntry::Symlink => StoredEntry::Symlink,
            MemoryEntry::Other => StoredEntry::Other,
        }
    }
}

/// Whether no path occurs twice.
spec fn unique(entries: Seq<NamedEntry>) -> bool {
    forall|i: int, j: int|
        #![trigger entries[i], entries[j]]
        0 <= i < j < entries.len() ==> entries[i].path@ != entries[j].path@
}

/// Whether an entry is at the path.
spec fn is_at(entries: Seq<NamedEntry>, path: Seq<char>, i: int) -> bool {
    0 <= i < entries.len() && entries[i].path@ == path
}

/// What is stored at each path.
spec fn table(entries: Seq<NamedEntry>) -> Map<Seq<char>, StoredEntry> {
    Map::new(
        |path: Seq<char>| exists|i: int| #[trigger] is_at(entries, path, i),
        |path: Seq<char>| entries[choose|i: int| #[trigger] is_at(entries, path, i)].entry.stored(),
    )
}

proof fn lemma_table_entry(entries: Seq<NamedEntry>, i: int)
    requires
        unique(entries),
        0 <= i < entries.len(),
    ensures
        table(entries).contains_key(entries[i].path@),
        table(entries)[entries[i].path@] == entries[i].entry.stored(),
{
    let path = entries[i].path@;
    assert(is_at(entries, path, i));
    let k = choose|k: int| #[trigger] is_at(entries, path, k);
    assert(is_at(entries, path, k));
    if i < k {
        assert(entries[i].path@ != entries[k].path@);
    }
    if k < i {
        assert(entries[k].path@ != entries[i].path@);
    }
}

/// Finds the entry at a path.
fn find(entries: &Vec<NamedEntry>, path: &str) -> (found: Option<usize>)
    requires
        unique(entries@),
    ensures
        match found {
            Some(i) => is_at(entries@, path@, i as int) && table(entries@).contains_key(path@)
                && table(entries@)[path@] == entries@[i as int].entry.stored(),
            None => !table(entries@).contains_key(path@) && forall|i: int|
                !#[trigger] is_at(entries@, path@, i),
        },
{
    let mut i: usize = 0;
    while i < entries.len()
        invariant
            unique(entries@),
            i <= entries@.len(),
            forall|k: int| 0 <= k < i ==> !#[trigger] is_at(entries@, path@, k),
        decreases entries@.len() - i,
    {
        let same: bool = same_bytes(entries[i].path.as_str().as_bytes(), path.as_bytes());
        proof {
            encode_utf8_decode_utf8(entries@[i as int].path@);
            encode_utf8_decode_utf8(path@);
        }
        if same {
            proof {
                lemma_table_entry(entries@, i as int);
            }
            return Some(i);
        }
        i = i + 1;
    }
    None
}

/// Stores an entry, in place of what was at its path.
fn put(entries: Vec<NamedEntry>, path: &str, entry: MemoryEntry) -> (result: Vec<NamedEntry>)
    requires
        unique(entries@),
    ensures
        unique(result@),
        table(result@) == table(entries@).insert(path@, entry.stored()),
{
    let mut result: Vec<NamedEntry> = entries;
    let ghost before = result@;
    let named = NamedEntry { path: path.to_owned(), entry };
    let place: usize = match find(&result, path) {
        Some(i) => {
            result[i] = named;
            i
        },
        None => {
            result.push(named);
            result.len() - 1
        },
    };
    proof {
        let after = result@;
        assert forall|i: int, j: int|
            #![trigger after[i], after[j]]
            0 <= i < j < after.len() implies after[i].path@ != after[j].path@ by {
            if i == place {
                assert(!is_at(before, path@, j) || before[place as int].path@ == path@);
            } else if j == place {
                assert(!is_at(before, path@, i) || before[place as int].path@ == path@);
            }
        }
        lemma_table_entry(after, place as int);
        assert forall|p: Seq<char>|
            #![trigger table(after).dom().contains(p)]
            #![trigger table(after)[p]]
            p != path@ implies table(after).contains_key(p) == table(before).contains_key(p) && (
        table(before).contains_key(p) ==> table(after)[p] == table(before)[p]) by {
            if table(before).contains_key(p) {
                let k = choose|k: int| #[trigger] is_at(before, p, k);
                assert(is_at(after, p, k));
                lemma_table_entry(before, k);
                lemma_table_entry(after, k);
            }
            if table(after).contains_key(p) {
                let k = choose|k: int| #[trigger] is_at(after, p, k);
                assert(is_at(before, p, k));
            }
        }
        assert(table(after) =~= table(before).insert(path@, entry.stored()));
    }
    result
}

/// Removes the entry at a path.
fn take_out(entries: Vec<NamedEntry>, path: &str) -> (result: Vec<NamedEntry>)
    requires
        unique(entries@),
    ensures
        unique(result@),
        table(result@) == table(entries@).remove(path@),
{
    let mut result: Vec<NamedEntry> = entries;
    let ghost before = result@;
    match find(&result, path) {
        None => {
            assert(table(before) =~= table(before).remove(path@));
        },
        Some(i) => {
            let _removed: NamedEntry = result.remove(i);
            proof {
                let after = result@;
                assert forall|p: Seq<char>|
                    #![trigger table(after).dom().contains(p)]
                    #![trigger table(after)[p]]
                    p != path@ implies table(after).contains_key(p) == table(before).contains_key(p)
                    && (table(before).contains_key(p) ==> table(after)[p] == table(before)[p]) by {
                    if table(before).contains_key(p) {
                        let k = choose|k: int| #[trigger] is_at(before, p, k);
                        let k1 = if k < i {
                            k
                        } else {
                            k - 1
                        };
                        assert(is_at(after, p, k1));
                        lemma_table_entry(before, k);
                        lemma_table_entry(after, k1);
                    }
                    if table(after).contains_key(p) {
                        let k = choose|k: int| #[trigger] is_at(after, p, k);
                        let k1 = if k < i {
                            k
                        } else {
                            k + 1
                        };
                        assert(is_at(before, p, k1));
                    }
                }
                if table(after).contains_key(path@) {
                    let k = choose|k: int| #[trigger] is_at(after, path@, k);
                    assert(is_at(after, path@, k));
                    let k1 = if k < i {
                        k
                    } else {
                        k + 1
                    };
                    assert(before[k1].path@ == before[i as int].path@);
                    assert(false);
                }
                assert(table(after) =~= table(before).remove(path@));
            }
        },
    }
    result
}

/// Whether an entry belongs to a listing of the files, or of the directories, of
/// a directory.
pub open spec fn is_listed(
    path: Seq<char>,
    entry: StoredEntry,
    directory: Seq<char>,
    directories: bool,
) -> bool {
    &&& if directories {
        entry is Directory
    } else {
        entry is File
    }
    &&& is_child(encode_utf8(path), encode_utf8(directory))
}

/// Whether `listing` names exactly what a directory holds directly, each once.
pub open spec fn is_listing(
    files: Map<Seq<char>, StoredEntry>,
    directory: Seq<char>,
    directories: bool,
    listing: Seq<Seq<char>>,
) -> bool {
    &&& listing.no_duplicates()
    &&& forall|path: Seq<char>| #[trigger]
        listing.contains(path) <==> files.contains_key(path) && is_listed(
            path,
            files[path],
            directory,
            directories,
        )
}

/// What a directory is asked to list, and what it replies: its listing in order,
/// or that it exceeds a limit, or that there is no such directory.
pub open spec fn is_listing_reply(
    files: Map<Seq<char>, StoredEntry>,
    directory: Seq<char>,
    directories: bool,
    max_entries: usize,
    max_total_bytes: usize,
    reply: Result<Seq<Seq<char>>, FileSystemError>,
) -> bool {
    match reply {
        Ok(listing) => {
            &&& files.contains_key(directory)
            &&& files[directory] is Directory
            &&& is_listing(files, directory, directories, listing)
            &&& ordered(listing, false)
            &&& listing_fits(listing, max_entries, max_total_bytes)
        },
        Err(error) => if !files.contains_key(directory) {
            is_host_error(error, HostIoErrorKind::NotFound, kind_text(HostIoErrorKind::NotFound))
        } else if files[directory] !is Directory {
            error is NotDirectory
        } else {
            &&& error is LimitExceeded
            &&& exists|listing: Seq<Seq<char>>|
                {
                    &&& #[trigger] is_listing(files, directory, directories, listing)
                    &&& !listing_fits(listing, max_entries, max_total_bytes)
                }
        },
    }
}

/// The listed paths among the first `n` entries.
spec fn matching(
    entries: Seq<NamedEntry>,
    n: int,
    directory: Seq<char>,
    directories: bool,
) -> Seq<Seq<char>>
    decreases n,
{
    if n <= 0 {
        Seq::empty()
    } else {
        let earlier = matching(entries, n - 1, directory, directories);
        let last = entries[n - 1];
        if is_listed(last.path@, last.entry.stored(), directory, directories) {
            earlier.push(last.path@)
        } else {
            earlier
        }
    }
}

proof fn lemma_matching_holds(
    entries: Seq<NamedEntry>,
    n: int,
    directory: Seq<char>,
    directories: bool,
)
    requires
        unique(entries),
        0 <= n <= entries.len(),
    ensures
        matching(entries, n, directory, directories).no_duplicates(),
        forall|path: Seq<char>| #[trigger]
            matching(entries, n, directory, directories).contains(path) <==> exists|i: int|
                i < n && #[trigger] is_at(entries, path, i) && is_listed(
                    path,
                    entries[i].entry.stored(),
                    directory,
                    directories,
                ),
    decreases n,
{
    let now = matching(entries, n, directory, directories);
    if n > 0 {
        lemma_matching_holds(entries, n - 1, directory, directories);
        let earlier = matching(entries, n - 1, directory, directories);
        let last = entries[n - 1];
        assert(is_at(entries, last.path@, n - 1));
        assert forall|path: Seq<char>| #[trigger] now.contains(path) == (exists|i: int|
            i < n && #[trigger] is_at(entries, path, i) && is_listed(
                path,
                entries[i].entry.stored(),
                directory,
                directories,
            )) by {
            if now.contains(path) {
                let k = choose|k: int| 0 <= k < now.len() && now[k] == path;
                if k < earlier.len() {
                    assert(earlier[k] == path);
                    assert(earlier.contains(path));
                }
            }
            if earlier.contains(path) {
                let k = choose|k: int| 0 <= k < earlier.len() && earlier[k] == path;
                assert(now[k] == path);
            }
            if is_listed(last.path@, last.entry.stored(), directory, directories) {
                assert(now[now.len() - 1] == last.path@);
            }
            if exists|i: int|
                i < n && #[trigger] is_at(entries, path, i) && is_listed(
                    path,
                    entries[i].entry.stored(),
                    directory,
                    directories,
                ) {
                let i = choose|i: int|
                    i < n && #[trigger] is_at(entries, path, i) && is_listed(
                        path,
                        entries[i].entry.stored(),
                        directory,
                        directories,
                    );
                if i < n - 1 {
                    assert(earlier.contains(path));
                }
            }
        }
        assert forall|i: int, j: int| 0 <= i < j < now.len() implies now[i] != now[j] by {
            assert(i < earlier.len() && now[i] == earlier[i]);
            if j < earlier.len() {
                assert(now[j] == earlier[j]);
            } else {
                assert(earlier.contains(now[i]));
                let k = choose|k: int|
                    k < n - 1 && #[trigger] is_at(entries, now[i], k) && is_listed(
                        now[i],
                        entries[k].entry.stored(),
                        directory,
                        directories,
                    );
                assert(entries[k].path@ != entries[n - 1].path@);
            }
        }
    }
}

proof fn lemma_matching_is_listing(
    entries: Seq<NamedEntry>,
    directory: Seq<char>,
    directories: bool,
)
    requires
        unique(entries),
    ensures
        is_listing(
            table(entries),
            directory,
            directories,
            matching(entries, entries.len() as int, directory, directories),
        ),
{
    let n = entries.len() as int;
    lemma_matching_holds(entries, n, directory, directories);
    let all = matching(entries, n, directory, directories);
    let files = table(entries);
    assert forall|path: Seq<char>| #[trigger] all.contains(path) == (files.contains_key(path)
        && is_listed(path, files[path], directory, directories)) by {
        if all.contains(path) {
            let i = choose|i: int|
                i < n && #[trigger] is_at(entries, path, i) && is_listed(
                    path,
                    entries[i].entry.stored(),
                    directory,
                    directories,
                );
            lemma_table_entry(entries, i);
        }
        if files.contains_key(path) {
            let i = choose|i: int| #[trigger] is_at(entries, path, i);
            lemma_table_entry(entries, i);
        }
    }
}

/// A longer listing exceeds what a shorter one exceeds.
proof fn lemma_matching_grows(
    entries: Seq<NamedEntry>,
    m: int,
    n: int,
    directory: Seq<char>,
    directories: bool,
)
    requires
        0 <= m <= n,
    ensures
        matching(entries, m, directory, directories).len() <= matching(
            entries,
            n,
            directory,
            directories,
        ).len(),
        total_bytes(matching(entries, m, directory, directories)) <= total_bytes(
            matching(entries, n, directory, directories),
        ),
    decreases n,
{
    if m < n {
        lemma_matching_grows(entries, m, n - 1, directory, directories);
        let earlier = matching(entries, n - 1, directory, directories);
        assert(earlier.push(entries[n - 1].path@).drop_last() =~= earlier);
    }
}

/// The bytes of texts do not depend on their order.
proof fn lemma_total_of_removed(a: Seq<Seq<char>>, i: int)
    requires
        0 <= i < a.len(),
    ensures
        total_bytes(a) == total_bytes(a.remove(i)) + encode_utf8(a[i]).len(),
    decreases a.len(),
{
    if i < a.len() - 1 {
        let b = a.remove(i);
        lemma_total_of_removed(a.drop_last(), i);
        assert(b.drop_last() =~= a.drop_last().remove(i));
        assert(b.last() == a.last());
    } else {
        assert(a.remove(i) =~= a.drop_last());
    }
}

/// Putting texts in another order does not change how many bytes they take.
pub proof fn law_total_bytes_ignores_order(a: Seq<Seq<char>>, b: Seq<Seq<char>>)
    requires
        a.to_multiset() == b.to_multiset(),
    ensures
        a.len() == b.len(),
        total_bytes(a) == total_bytes(b),
    decreases a.len(),
{
    a.to_multiset_ensures();
    b.to_multiset_ensures();
    if a.len() > 0 {
        let x = a.last();
        assert(a.contains(x));
        assert(b.to_multiset().count(x) > 0);
        let i = choose|i: int| 0 <= i < b.len() && b[i] == x;
        lemma_total_of_removed(b, i);
        assert(a.drop_last() =~= a.remove(a.len() - 1));
        law_total_bytes_ignores_order(a.drop_last(), b.remove(i));
    }
}

/// A backend that keeps its files in memory.
pub struct MemoryFileSystemBackend {
    entries: Vec<NamedEntry>,
    log: Ghost<Seq<FileCall>>,
}

impl View for MemoryFileSystemBackend {
    type V = Map<Seq<char>, StoredEntry>;

    closed spec fn view(&self) -> Map<Seq<char>, StoredEntry> {
        table(self.entries@)
    }
}

impl MemoryFileSystemBackend {
    #[verifier::type_invariant]
    spec fn paths_are_unique(self) -> bool {
        unique(self.entries@)
    }

    /// A filesystem that holds nothing.
    pub fn new() -> (backend: Self)
        ensures
            backend@ == Map::<Seq<char>, StoredEntry>::empty(),
            backend.calls() == Seq::<FileCall>::empty(),
    {
        let backend = MemoryFileSystemBackend { entries: Vec::new(), log: Ghost(Seq::empty()) };
        assert(backend@ =~= Map::<Seq<char>, StoredEntry>::empty());
        backend
    }

    fn with_entry(self, path: &str, entry: MemoryEntry) -> (backend: Self)
        ensures
            backend.calls() == self.calls(),
            backend@ == self@.insert(path@, entry.stored()),
    {
        proof {
            use_type_invariant(&self);
        }
        MemoryFileSystemBackend { entries: put(self.entries, path, entry), log: self.log }
    }

    /// Seed a file, replacing any prior entry at `path`.
    pub fn with_file(self, path: &str, content: &[u8]) -> (backend: Self)
        ensures
            backend.calls() == self.calls(),
            backend@ == self@.insert(path@, StoredEntry::File(content@)),
    {
        self.with_entry(path, MemoryEntry::File(slice_to_vec(content)))
    }

    /// Seed a directory.
    pub fn with_directory(self, path: &str) -> (backend: Self)
        ensures
            backend.calls() == self.calls(),
            backend@ == self@.insert(path@, StoredEntry::Directory),
    {
        self.with_entry(path, MemoryEntry::Directory)
    }

    /// Seed a symbolic link. Listings do not follow it.
    pub fn with_symlink(self, path: &str) -> (backend: Self)
        ensures
            backend.calls() == self.calls(),
            backend@ == self@.insert(path@, StoredEntry::Symlink),
    {
        self.with_entry(path, MemoryEntry::Symlink)
    }

    /// Seed something that is neither a file nor a directory.
    pub fn with_other(self, path: &str) -> (backend: Self)
        ensures
            backend.calls() == self.calls(),
            backend@ == self@.insert(path@, StoredEntry::Other),
    {
        self.with_entry(path, MemoryEntry::Other)
    }

    /// The bytes stored at `path`, if a file is there.
    pub fn read(&self, path: &str) -> (content: Option<Vec<u8>>)
        ensures
            match content {
                Some(bytes) => self@.contains_key(path@) && self@[path@] == StoredEntry::File(
                    bytes@,
                ),
                None => !(self@.contains_key(path@) && self@[path@] is File),
            },
    {
        proof {
            use_type_invariant(self);
        }
        match find(&self.entries, path) {
            None => None,
            Some(i) => match &self.entries[i].entry {
                MemoryEntry::File(bytes) => Some(slice_to_vec(bytes.as_slice())),
                _ => None,
            },
        }
    }

    fn store(&mut self, path: &str, entry: MemoryEntry)
        ensures
            final(self)@ == old(self)@.insert(path@, entry.stored()),
            final(self).log@ == old(self).log@,
    {
        proof {
            use_type_invariant(&*self);
        }
        let mut entries: Vec<NamedEntry> = Vec::new();
        std::mem::swap(&mut entries, &mut self.entries);
        let changed: Vec<NamedEntry> = put(entries, path, entry);
        self.entries = changed;
    }

    fn discard(&mut self, path: &str)
        ensures
            final(self)@ == old(self)@.remove(path@),
            final(self).log@ == old(self).log@,
    {
        proof {
            use_type_invariant(&*self);
        }
        let mut entries: Vec<NamedEntry> = Vec::new();
        std::mem::swap(&mut entries, &mut self.entries);
        let changed: Vec<NamedEntry> = take_out(entries, path);
        self.entries = changed;
    }

    fn list(
        &self,
        directory: &str,
        directories: bool,
        max_entries: usize,
        max_total_bytes: usize,
    ) -> (result: Result<Vec<String>, FileSystemError>)
        ensures
            is_listing_reply(
                self@,
                directory@,
                directories,
                max_entries,
                max_total_bytes,
                paths_reply(result),
            ),
    {
        proof {
            use_type_invariant(self);
        }
        match find(&self.entries, directory) {
            None => {
                return Err(FileSystemError::Io(HostIoError::of_kind(HostIoErrorKind::NotFound)));
            },
            Some(i) => match &self.entries[i].entry {
                MemoryEntry::Directory => {},
                _ => {
                    return Err(FileSystemError::NotDirectory);
                },
            },
        }
        let ghost entries = self.entries@;
        let ghost last = entries.len() as int;
        let mut paths: Vec<String> = Vec::new();
        let mut taken: usize = 0;
        let mut i: usize = 0;
        assert(texts(paths@) =~= Seq::empty());
        while i < self.entries.len()
            invariant
                entries == self.entries@,
                last == entries.len(),
                unique(entries),
                self@ == table(entries),
                self@.contains_key(directory@),
                self@[directory@] is Directory,
                i <= last,
                texts(paths@) == matching(entries, i as int, directory@, directories),
                taken == total_bytes(texts(paths@)),
                listing_fits(texts(paths@), max_entries, max_total_bytes),
            decreases last - i,
        {
            let right_kind: bool = match &self.entries[i].entry {
                MemoryEntry::File(_) => !directories,
                MemoryEntry::Directory => directories,
                _ => false,
            };
            let path: &str = self.entries[i].path.as_str();
            if right_kind && is_direct_child(path.as_bytes(), directory.as_bytes()) {
                let result: Result<(), FileSystemError> = collect_list_path(
                    &mut paths,
                    &mut taken,
                    path,
                    max_entries,
                    max_total_bytes,
                );
                if let Err(error) = result {
                    proof {
                        lemma_matching_grows(entries, i + 1, last, directory@, directories);
                        lemma_matching_is_listing(entries, directory@, directories);
                    }
                    return Err(error);
                }
            }
            i = i + 1;
        }
        proof {
            lemma_matching_is_listing(entries, directory@, directories);
        }
        let ghost found = texts(paths@);
        let sorted: Vec<String> = sort_texts(paths);
        proof {
            let listing = texts(sorted@);
            law_total_bytes_ignores_order(listing, found);
            found.lemma_multiset_has_no_duplicates();
            listing.to_multiset_ensures();
            found.to_multiset_ensures();
            assert forall|k: int, j: int| 0 <= k < j < listing.len() implies listing[k]
                != listing[j] by {
                if listing[k] == listing[j] {
                    lemma_twice(listing, k, j);
                    assert(found.to_multiset().contains(listing[k]));
                }
            }
            assert forall|path: Seq<char>| #[trigger] listing.contains(path) == found.contains(
                path,
            ) by {
                assert(listing.contains(path) <==> listing.to_multiset().count(path) > 0);
                assert(found.contains(path) <==> found.to_multiset().count(path) > 0);
            }
        }
        Ok(sorted)
    }

    /// Whether anything is stored directly below a directory.
    fn has_child(&self, directory: &str) -> (result: bool)
        ensures
            result == exists|path: Seq<char>| #[trigger]
                self@.contains_key(path) && is_child(encode_utf8(path), encode_utf8(directory@)),
    {
        proof {
            use_type_invariant(self);
        }
        let mut i: usize = 0;
        while i < self.entries.len()
            invariant
                unique(self.entries@),
                i <= self.entries@.len(),
                forall|k: int|
                    0 <= k < i ==> !is_child(
                        encode_utf8((#[trigger] self.entries@[k]).path@),
                        encode_utf8(directory@),
                    ),
            decreases self.entries@.len() - i,
        {
            let path: &str = self.entries[i].path.as_str();
            if is_direct_child(path.as_bytes(), directory.as_bytes()) {
                proof {
                    lemma_table_entry(self.entries@, i as int);
                    assert(self@.contains_key(self.entries@[i as int].path@));
                }
                return true;
            }
            i = i + 1;
        }
        proof {
            assert forall|path: Seq<char>| #[trigger] self@.contains_key(path) implies !is_child(
                encode_utf8(path),
                encode_utf8(directory@),
            ) by {
                let k = choose|k: int| #[trigger] is_at(self.entries@, path, k);
                assert(is_at(self.entries@, path, k));
            }
        }
        false
    }
}

proof fn lemma_twice(s: Seq<Seq<char>>, i: int, j: int)
    requires
        0 <= i < j < s.len(),
        s[i] == s[j],
    ensures
        s.to_multiset().count(s[i]) >= 2,
{
    let x = s[i];
    let t = s.remove(j);
    s.to_multiset_ensures();
    t.to_multiset_ensures();
    assert(t[i] == x);
    assert(t.contains(x));
    assert(t.to_multiset() =~= s.to_multiset().remove(x));
    assert(t.to_multiset().count(x) > 0);
}

impl Default for MemoryFileSystemBackend {
    fn default() -> (backend: Self)
        ensures
            backend@ == Map::<Seq<char>, StoredEntry>::empty(),
            backend.calls() == Seq::<FileCall>::empty(),
    {
        Self::new()
    }
}

/// What is read from a file: its first bytes.
pub open spec fn capped(bytes: Seq<u8>, limit: u64) -> Seq<u8> {
    if bytes.len() <= limit {
        bytes
    } else {
        bytes.take(limit as int)
    }
}

/// What is read at a path, if a file is there.
pub open spec fn readable(
    files: Map<Seq<char>, StoredEntry>,
    path: Seq<char>,
    limit: u64,
) -> Option<Seq<u8>> {
    if files.contains_key(path) {
        match files[path] {
            StoredEntry::File(content) => Some(capped(content, limit)),
            _ => None,
        }
    } else {
        None
    }
}

/// Whether content can be stored at a path: in a file, or where there is nothing.
pub open spec fn takes_content(files: Map<Seq<char>, StoredEntry>, path: Seq<char>) -> bool {
    files.contains_key(path) ==> files[path] is File
}

/// The files after content was to be stored at a path.
pub open spec fn after_write(
    files: Map<Seq<char>, StoredEntry>,
    path: Seq<char>,
    content: Seq<u8>,
) -> Map<Seq<char>, StoredEntry> {
    if takes_content(files, path) {
        files.insert(path, StoredEntry::File(content))
    } else {
        files
    }
}

/// The files after content was to be added at a path.
pub open spec fn after_append(
    files: Map<Seq<char>, StoredEntry>,
    path: Seq<char>,
    content: Seq<u8>,
) -> Map<Seq<char>, StoredEntry> {
    if !takes_content(files, path) {
        files
    } else if files.contains_key(path) {
        files.insert(path, StoredEntry::File(files[path]->File_0 + content))
    } else {
        files.insert(path, StoredEntry::File(content))
    }
}

/// What was written to a file is read back, and no other file changes.
pub proof fn law_written_file_is_read_back(
    files: Map<Seq<char>, StoredEntry>,
    path: Seq<char>,
    content: Seq<u8>,
    other: Seq<char>,
    limit: u64,
)
    requires
        takes_content(files, path),
    ensures
        readable(after_write(files, path, content), path, limit) == Some(capped(content, limit)),
        content.len() <= limit ==> readable(after_write(files, path, content), path, limit)
            == Some(content),
        other != path ==> readable(after_write(files, path, content), other, limit) == readable(
            files,
            other,
            limit,
        ),
{
}

/// Appending piece by piece stores what writing the pieces at once stores.
pub proof fn law_appending_continues_a_write(
    files: Map<Seq<char>, StoredEntry>,
    path: Seq<char>,
    first: Seq<u8>,
    second: Seq<u8>,
)
    requires
        takes_content(files, path),
    ensures
        after_append(after_write(files, path, first), path, second) == after_write(
            files,
            path,
            first + second,
        ),
{
    assert(after_append(after_write(files, path, first), path, second) =~= after_write(
        files,
        path,
        first + second,
    ));
}

impl MemoryFileSystemBackend {
    fn stored_read_all(&mut self, path: &str, probe_limit: u64) -> (result: Result<
        Vec<u8>,
        FileSystemError,
    >)
        ensures
            final(self).log@ == old(self).log@,
            final(self)@ == old(self)@,
            match content_reply(result) {
                Ok(bytes) => readable(old(self)@, path@, probe_limit) == Some(bytes),
                Err(error) => if old(self)@.contains_key(path@) {
                    error is NotFile && readable(old(self)@, path@, probe_limit) is None
                } else {
                    is_host_error(
                        error,
                        HostIoErrorKind::NotFound,
                        kind_text(HostIoErrorKind::NotFound),
                    )
                },
            },
    {
        proof {
            use_type_invariant(&*self);
        }
        match find(&self.entries, path) {
            None => Err(FileSystemError::Io(HostIoError::of_kind(HostIoErrorKind::NotFound))),
            Some(i) => match &self.entries[i].entry {
                MemoryEntry::File(bytes) => {
                    let mut content: Vec<u8> = slice_to_vec(bytes.as_slice());
                    if content.len() as u64 > probe_limit {
                        content.truncate(probe_limit as usize);
                    }
                    Ok(content)
                },
                _ => Err(FileSystemError::NotFile),
            },
        }
    }

    fn stored_write_all(&mut self, path: &str, content: &[u8]) -> (result: Result<(), FileSystemError>)
        ensures
            final(self).log@ == old(self).log@,
            final(self)@ == after_write(old(self)@, path@, content@),
            if takes_content(old(self)@, path@) {
                result is Ok
            } else {
                result matches Err(FileSystemError::NotFile)
            },
    {
        proof {
            use_type_invariant(&*self);
        }
        let blocked: bool = match find(&self.entries, path) {
            None => false,
            Some(i) => !matches!(self.entries[i].entry, MemoryEntry::File(_)),
        };
        if blocked {
            return Err(FileSystemError::NotFile);
        }
        self.store(path, MemoryEntry::File(slice_to_vec(content)));
        Ok(())
    }

    fn stored_append_all(&mut self, path: &str, content: &[u8]) -> (result: Result<(), FileSystemError>)
        ensures
            final(self).log@ == old(self).log@,
            final(self)@ == after_append(old(self)@, path@, content@),
            if takes_content(old(self)@, path@) {
                result is Ok
            } else {
                result matches Err(FileSystemError::NotFile)
            },
    {
        proof {
            use_type_invariant(&*self);
        }
        let mut joined: Vec<u8> = match find(&self.entries, path) {
            None => Vec::new(),
            Some(i) => match &self.entries[i].entry {
                MemoryEntry::File(bytes) => slice_to_vec(bytes.as_slice()),
                _ => {
                    return Err(FileSystemError::NotFile);
                },
            },
        };
        joined.extend_from_slice(content);
        assert(joined@ =~= if old(self)@.contains_key(path@) {
            old(self)@[path@]->File_0 + content@
        } else {
            content@
        });
        self.store(path, MemoryEntry::File(joined));
        Ok(())
    }

    fn stored_list_files(&mut self, directory: &str, max_entries: usize, max_total_bytes: usize) -> (result:
        Result<Vec<String>, FileSystemError>)
        ensures
            final(self).log@ == old(self).log@,
            final(self)@ == old(self)@,
            is_listing_reply(
                old(self)@,
                directory@,
                false,
                max_entries,
                max_total_bytes,
                paths_reply(result),
            ),
    {
        self.list(directory, false, max_entries, max_total_bytes)
    }

    fn stored_list_directories(
        &mut self,
        directory: &str,
        max_entries: usize,
        max_total_bytes: usize,
    ) -> (result: Result<Vec<String>, FileSystemError>)
        ensures
            final(self).log@ == old(self).log@,
            final(self)@ == old(self)@,
            is_listing_reply(
                old(self)@,
                directory@,
                true,
                max_entries,
                max_total_bytes,
                paths_reply(result),
            ),
    {
        self.list(directory, true, max_entries, max_total_bytes)
    }

    fn stored_file_exists(&mut self, path: &str) -> (result: Result<bool, FileSystemError>)
        ensures
            final(self).log@ == old(self).log@,
            final(self)@ == old(self)@,
            result == Ok::<bool, FileSystemError>(
                old(self)@.contains_key(path@) && old(self)@[path@] is File,
            ),
    {
        proof {
            use_type_invariant(&*self);
        }
        match find(&self.entries, path) {
            None => Ok(false),
            Some(i) => Ok(matches!(self.entries[i].entry, MemoryEntry::File(_))),
        }
    }

    fn stored_directory_exists(&mut self, path: &str) -> (result: Result<bool, FileSystemError>)
        ensures
            final(self).log@ == old(self).log@,
            final(self)@ == old(self)@,
            result == Ok::<bool, FileSystemError>(
                old(self)@.contains_key(path@) && old(self)@[path@] is Directory,
            ),
    {
        proof {
            use_type_invariant(&*self);
        }
        match find(&self.entries, path) {
            None => Ok(false),
            Some(i) => Ok(matches!(self.entries[i].entry, MemoryEntry::Directory)),
        }
    }

    fn stored_create_directory(&mut self, path: &str) -> (result: Result<bool, FileSystemError>)
        ensures
            final(self).log@ == old(self).log@,
            if !old(self)@.contains_key(path@) {
                result == Ok::<bool, FileSystemError>(true) && final(self)@ == old(self)@.insert(
                    path@,
                    StoredEntry::Directory,
                )
            } else {
                &&& final(self)@ == old(self)@
                &&& if old(self)@[path@] is Directory {
                    result == Ok::<bool, FileSystemError>(false)
                } else {
                    result matches Err(FileSystemError::NotDirectory)
                }
            },
    {
        proof {
            use_type_invariant(&*self);
        }
        let found: Option<bool> = match find(&self.entries, path) {
            None => None,
            Some(i) => Some(matches!(self.entries[i].entry, MemoryEntry::Directory)),
        };
        match found {
            Some(true) => Ok(false),
            Some(false) => Err(FileSystemError::NotDirectory),
            None => {
                self.store(path, MemoryEntry::Directory);
                Ok(true)
            },
        }
    }

    fn stored_delete_file(&mut self, path: &str) -> (result: Result<bool, FileSystemError>)
        ensures
            final(self).log@ == old(self).log@,
            if !old(self)@.contains_key(path@) {
                result == Ok::<bool, FileSystemError>(false) && final(self)@ == old(self)@
            } else if old(self)@[path@] is File {
                result == Ok::<bool, FileSystemError>(true) && final(self)@ == old(self)@.remove(
                    path@,
                )
            } else {
                result matches Err(FileSystemError::NotFile) && final(self)@ == old(self)@
            },
    {
        proof {
            use_type_invariant(&*self);
        }
        let found: Option<bool> = match find(&self.entries, path) {
            None => None,
            Some(i) => Some(matches!(self.entries[i].entry, MemoryEntry::File(_))),
        };
        match found {
            None => Ok(false),
            Some(false) => Err(FileSystemError::NotFile),
            Some(true) => {
                self.discard(path);
                Ok(true)
            },
        }
    }

    fn stored_delete_directory(&mut self, path: &str) -> (result: Result<bool, FileSystemError>)
        ensures
            final(self).log@ == old(self).log@,
            match result {
                Ok(existed) => if existed {
                    &&& old(self)@.contains_key(path@)
                    &&& old(self)@[path@] is Directory
                    &&& forall|inner: Seq<char>| #[trigger]
                        old(self)@.contains_key(inner) ==> !is_child(
                            encode_utf8(inner),
                            encode_utf8(path@),
                        )
                    &&& final(self)@ == old(self)@.remove(path@)
                } else {
                    !old(self)@.contains_key(path@) && final(self)@ == old(self)@
                },
                Err(error) => {
                    &&& final(self)@ == old(self)@
                    &&& old(self)@.contains_key(path@)
                    &&& if old(self)@[path@] is Directory {
                        &&& exists|inner: Seq<char>| #[trigger]
                            old(self)@.contains_key(inner) && is_child(
                                encode_utf8(inner),
                                encode_utf8(path@),
                            )
                        &&& is_host_error(
                            error,
                            HostIoErrorKind::DirectoryNotEmpty,
                            "directory is not empty"@,
                        )
                    } else {
                        error is NotDirectory
                    }
                },
            },
    {
        proof {
            use_type_invariant(&*self);
        }
        match find(&self.entries, path) {
            None => {
                return Ok(false);
            },
            Some(i) => match &self.entries[i].entry {
                MemoryEntry::Directory => {},
                _ => {
                    return Err(FileSystemError::NotDirectory);
                },
            },
        }
        if self.has_child(path) {
            return Err(
                FileSystemError::Io(
                    HostIoError::new(HostIoErrorKind::DirectoryNotEmpty, "directory is not empty"),
                ),
            );
        }
        self.discard(path);
        Ok(true)
    }
}

impl FileSystemBackend for MemoryFileSystemBackend {
    closed spec fn calls(&self) -> Seq<FileCall> {
        self.log@
    }

    fn read_all(&mut self, path: &str, probe_limit: u64) -> (result: Result<
        Vec<u8>,
        FileSystemError,
    >)
        ensures
            final(self)@ == old(self)@,
            match content_reply(result) {
                Ok(bytes) => readable(old(self)@, path@, probe_limit) == Some(bytes),
                Err(error) => if old(self)@.contains_key(path@) {
                    error is NotFile && readable(old(self)@, path@, probe_limit) is None
                } else {
                    is_host_error(
                        error,
                        HostIoErrorKind::NotFound,
                        kind_text(HostIoErrorKind::NotFound),
                    )
                },
            },
    {
        let result: Result<Vec<u8>, FileSystemError> = self.stored_read_all(path, probe_limit);
        proof {
            use_type_invariant(&*self);
        }
        self.log = Ghost(
            self.log@.push(
                FileCall::ReadAll { path: path@, probe_limit, reply: content_reply(result) },
            ),
        );
        result
    }

    fn write_all(&mut self, path: &str, content: &[u8]) -> (result: Result<(), FileSystemError>)
        ensures
            final(self)@ == after_write(old(self)@, path@, content@),
            if takes_content(old(self)@, path@) {
                result is Ok
            } else {
                result matches Err(FileSystemError::NotFile)
            },
    {
        let result: Result<(), FileSystemError> = self.stored_write_all(path, content);
        proof {
            use_type_invariant(&*self);
        }
        self.log = Ghost(
            self.log@.push(
                FileCall::WriteAll { append: false, path: path@, content: content@, reply: result },
            ),
        );
        result
    }

    fn append_all(&mut self, path: &str, content: &[u8]) -> (result: Result<(), FileSystemError>)
        ensures
            final(self)@ == after_append(old(self)@, path@, content@),
            if takes_content(old(self)@, path@) {
                result is Ok
            } else {
                result matches Err(FileSystemError::NotFile)
            },
    {
        let result: Result<(), FileSystemError> = self.stored_append_all(path, content);
        proof {
            use_type_invariant(&*self);
        }
        self.log = Ghost(
            self.log@.push(
                FileCall::WriteAll { append: true, path: path@, content: content@, reply: result },
            ),
        );
        result
    }

    fn list_files(&mut self, directory: &str, max_entries: usize, max_total_bytes: usize) -> (result:
        Result<Vec<String>, FileSystemError>)
        ensures
            final(self)@ == old(self)@,
            is_listing_reply(
                old(self)@,
                directory@,
                false,
                max_entries,
                max_total_bytes,
                paths_reply(result),
            ),
    {
        let result: Result<Vec<String>, FileSystemError> = self.stored_list_files(directory, max_entries, max_total_bytes);
        proof {
            use_type_invariant(&*self);
        }
        self.log = Ghost(
            self.log@.push(
                FileCall::List {
                    directories: false,
                    directory: directory@,
                    max_entries,
                    max_total_bytes,
                    reply: paths_reply(result),
                },
            ),
        );
        result
    }

    fn list_directories(
        &mut self,
        directory: &str,
        max_entries: usize,
        max_total_bytes: usize,
    ) -> (result: Result<Vec<String>, FileSystemError>)
        ensures
            final(self)@ == old(self)@,
            is_listing_reply(
                old(self)@,
                directory@,
                true,
                max_entries,
                max_total_bytes,
                paths_reply(result),
            ),
    {
        let result: Result<Vec<String>, FileSystemError> = self.stored_list_directories(directory, max_entries, max_total_bytes);
        proof {
            use_type_invariant(&*self);
        }
        self.log = Ghost(
            self.log@.push(
                FileCall::List {
                    directories: true,
                    directory: directory@,
                    max_entries,
                    max_total_bytes,
                    reply: paths_reply(result),
                },
            ),
        );
        result
    }

    fn file_exists(&mut self, path: &str) -> (result: Result<bool, FileSystemError>)
        ensures
            final(self)@ == old(self)@,
            result == Ok::<bool, FileSystemError>(
                old(self)@.contains_key(path@) && old(self)@[path@] is File,
            ),
    {
        let result: Result<bool, FileSystemError> = self.stored_file_exists(path);
        proof {
            use_type_invariant(&*self);
        }
        self.log = Ghost(
            self.log@.push(
                FileCall::Path { operation: PathOperation::FileExists, path: path@, reply: result },
            ),
        );
        result
    }

    fn directory_exists(&mut self, path: &str) -> (result: Result<bool, FileSystemError>)
        ensures
            final(self)@ == old(self)@,
            result == Ok::<bool, FileSystemError>(
                old(self)@.contains_key(path@) && old(self)@[path@] is Directory,
            ),
    {
        let result: Result<bool, FileSystemError> = self.stored_directory_exists(path);
        proof {
            use_type_invariant(&*self);
        }
        self.log = Ghost(
            self.log@.push(
                FileCall::Path { operation: PathOperation::DirectoryExists, path: path@, reply: result },
            ),
        );
        result
    }

    fn create_directory(&mut self, path: &str) -> (result: Result<bool, FileSystemError>)
        ensures
            if !old(self)@.contains_key(path@) {
                result == Ok::<bool, FileSystemError>(true) && final(self)@ == old(self)@.insert(
                    path@,
                    StoredEntry::Directory,
                )
            } else {
                &&& final(self)@ == old(self)@
                &&& if old(self)@[path@] is Directory {
                    result == Ok::<bool, FileSystemError>(false)
                } else {
                    result matches Err(FileSystemError::NotDirectory)
                }
            },
    {
        let result: Result<bool, FileSystemError> = self.stored_create_directory(path);
        proof {
            use_type_invariant(&*self);
        }
        self.log = Ghost(
            self.log@.push(
                FileCall::Path { operation: PathOperation::CreateDirectory, path: path@, reply: result },
            ),
        );
        result
    }

    fn delete_file(&mut self, path: &str) -> (result: Result<bool, FileSystemError>)
        ensures
            if !old(self)@.contains_key(path@) {
                result == Ok::<bool, FileSystemError>(false) && final(self)@ == old(self)@
            } else if old(self)@[path@] is File {
                result == Ok::<bool, FileSystemError>(true) && final(self)@ == old(self)@.remove(
                    path@,
                )
            } else {
                result matches Err(FileSystemError::NotFile) && final(self)@ == old(self)@
            },
    {
        let result: Result<bool, FileSystemError> = self.stored_delete_file(path);
        proof {
            use_type_invariant(&*self);
        }
        self.log = Ghost(
            self.log@.push(
                FileCall::Path { operation: PathOperation::DeleteFile, path: path@, reply: result },
            ),
        );
        result
    }

    fn delete_directory(&mut self, path: &str) -> (result: Result<bool, FileSystemError>)
        ensures
            match result {
                Ok(existed) => if existed {
                    &&& old(self)@.contains_key(path@)
                    &&& old(self)@[path@] is Directory
                    &&& forall|inner: Seq<char>| #[trigger]
                        old(self)@.contains_key(inner) ==> !is_child(
                            encode_utf8(inner),
                            encode_utf8(path@),
                        )
                    &&& final(self)@ == old(self)@.remove(path@)
                } else {
                    !old(self)@.contains_key(path@) && final(self)@ == old(self)@
                },
                Err(error) => {
                    &&& final(self)@ == old(self)@
                    &&& old(self)@.contains_key(path@)
                    &&& if old(self)@[path@] is Directory {
                        &&& exists|inner: Seq<char>| #[trigger]
                            old(self)@.contains_key(inner) && is_child(
                                encode_utf8(inner),
                                encode_utf8(path@),
                            )
                        &&& is_host_error(
                            error,
                            HostIoErrorKind::DirectoryNotEmpty,
                            "directory is not empty"@,
                        )
                    } else {
                        error is NotDirectory
                    }
                },
            },
    {
        let result: Result<bool, FileSystemError> = self.stored_delete_directory(path);
        proof {
            use_type_invariant(&*self);
        }
        self.log = Ghost(
            self.log@.push(
                FileCall::Path { operation: PathOperation::DeleteDirectory, path: path@, reply: result },
            ),
        );
        result
    }
}

/// A backend that always fails in one way.
pub struct FailingFileSystemBackend {
    kind: HostIoErrorKind,
    log: Ghost<Seq<FileCall>>,
}

impl FailingFileSystemBackend {
    /// How this backend fails.
    pub closed spec fn failure(&self) -> HostIoErrorKind {
        self.kind
    }

    /// A backend that fails with errors of the given kind.
    pub fn new(kind: HostIoErrorKind) -> (backend: Self)
        ensures
            backend.failure() == kind,
            backend.calls() == Seq::<FileCall>::empty(),
    {
        FailingFileSystemBackend { kind, log: Ghost(Seq::empty()) }
    }

    fn error(&self) -> (error: FileSystemError)
        ensures
            is_host_error(error, self.failure(), kind_text(self.failure())),
    {
        FileSystemError::Io(HostIoError::of_kind(self.kind))
    }
}

impl FileSystemBackend for FailingFileSystemBackend {
    closed spec fn calls(&self) -> Seq<FileCall> {
        self.log@
    }

    fn read_all(&mut self, path: &str, probe_limit: u64) -> (result: Result<
        Vec<u8>,
        FileSystemError,
    >)
        ensures
            final(self).failure() == old(self).failure(),
            result matches Err(error) && is_host_error(
                error,
                old(self).failure(),
                kind_text(old(self).failure()),
            ),
    {
        let result: Result<Vec<u8>, FileSystemError> = Err(self.error());
        self.log = Ghost(
            self.log@.push(
                FileCall::ReadAll { path: path@, probe_limit, reply: content_reply(result) },
            ),
        );
        result
    }

    fn write_all(&mut self, path: &str, content: &[u8]) -> (result: Result<(), FileSystemError>)
        ensures
            final(self).failure() == old(self).failure(),
            result matches Err(error) && is_host_error(
                error,
                old(self).failure(),
                kind_text(old(self).failure()),
            ),
    {
        let result: Result<(), FileSystemError> = Err(self.error());
        self.log = Ghost(
            self.log@.push(
                FileCall::WriteAll { append: false, path: path@, content: content@, reply: result },
            ),
        );
        result
    }

    fn list_files(&mut self, directory: &str, max_entries: usize, max_total_bytes: usize) -> (result:
        Result<Vec<String>, FileSystemError>)
        ensures
            final(self).failure() == old(self).failure(),
            result matches Err(error) && is_host_error(
                error,
                old(self).failure(),
                kind_text(old(self).failure()),
            ),
    {
        let result: Result<Vec<String>, FileSystemError> = Err(self.error());
        self.log = Ghost(
            self.log@.push(
                FileCall::List {
                    directories: false,
                    directory: directory@,
                    max_entries,
                    max_total_bytes,
                    reply: paths_reply(result),
                },
            ),
        );
        result
    }

    fn file_exists(&mut self, path: &str) -> (result: Result<bool, FileSystemError>)
        ensures
            final(self).failure() == old(self).failure(),
            result matches Err(error) && is_host_error(
                error,
                old(self).failure(),
                kind_text(old(self).failure()),
            ),
    {
        let result: Result<bool, FileSystemError> = Err(self.error());
        self.log = Ghost(
            self.log@.push(
                FileCall::Path { operation: PathOperation::FileExists, path: path@, reply: result },
            ),
        );
        result
    }

    fn directory_exists(&mut self, path: &str) -> (result: Result<bool, FileSystemError>)
        ensures
            final(self).failure() == old(self).failure(),
            result matches Err(error) && is_host_error(
                error,
                old(self).failure(),
                kind_text(old(self).failure()),
            ),
    {
        let result: Result<bool, FileSystemError> = Err(self.error());
        self.log = Ghost(
            self.log@.push(
                FileCall::Path { operation: PathOperation::DirectoryExists, path: path@, reply: result },
            ),
        );
        result
    }

    fn create_directory(&mut self, path: &str) -> (result: Result<bool, FileSystemError>)
        ensures
            final(self).failure() == old(self).failure(),
            result matches Err(error) && is_host_error(
                error,
                old(self).failure(),
                kind_text(old(self).failure()),
            ),
    {
        let result: Result<bool, FileSystemError> = Err(self.error());
        self.log = Ghost(
            self.log@.push(
                FileCall::Path { operation: PathOperation::CreateDirectory, path: path@, reply: result },
            ),
        );
        result
    }

    fn delete_file(&mut self, path: &str) -> (result: Result<bool, FileSystemError>)
        ensures
            final(self).failure() == old(self).failure(),
            result matches Err(error) && is_host_error(
                error,
                old(self).failure(),
                kind_text(old(self).failure()),
            ),
    {
        let result: Result<bool, FileSystemError> = Err(self.error());
        self.log = Ghost(
            self.log@.push(
                FileCall::Path { operation: PathOperation::DeleteFile, path: path@, reply: result },
            ),
        );
        result
    }

    fn delete_directory(&mut self, path: &str) -> (result: Result<bool, FileSystemError>)
        ensures
            final(self).failure() == old(self).failure(),
            result matches Err(error) && is_host_error(
                error,
                old(self).failure(),
                kind_text(old(self).failure()),
            ),
    {
        let result: Result<bool, FileSystemError> = Err(self.error());
        self.log = Ghost(
            self.log@.push(
                FileCall::Path { operation: PathOperation::DeleteDirectory, path: path@, reply: result },
            ),
        );
        result
    }

    fn append_all(&mut self, path: &str, content: &[u8]) -> (result: Result<(), FileSystemError>)
        ensures
            final(self).failure() == old(self).failure(),
            result matches Err(error) && is_host_error(
                error,
                HostIoErrorKind::Unsupported,
                "filesystem backend does not implement append"@,
            ),
    {
        let result: Result<(), FileSystemError> = Err(no_append());
        self.log = Ghost(
            self.log@.push(
                FileCall::WriteAll { append: true, path: path@, content: content@, reply: result },
            ),
        );
        result
    }

    fn list_directories(
        &mut self,
        directory: &str,
        max_entries: usize,
        max_total_bytes: usize,
    ) -> (result: Result<Vec<String>, FileSystemError>)
        ensures
            final(self).failure() == old(self).failure(),
            result matches Err(error) && is_host_error(
                error,
                HostIoErrorKind::Unsupported,
                "filesystem backend does not implement directory enumeration"@,
            ),
    {
        let result: Result<Vec<String>, FileSystemError> = Err(no_listing());
        self.log = Ghost(
            self.log@.push(
                FileCall::List {
                    directories: true,
                    directory: directory@,
                    max_entries,
                    max_total_bytes,
                    reply: paths_reply(result),
                },
            ),
        );
        result
    }
}

/// A backend whose writes store their content and still report a failure, as a
/// flush that fails after the bytes were written does.
pub struct PartialWriteFailureFileSystemBackend {
    inner: MemoryFileSystemBackend,
    log: Ghost<Seq<FileCall>>,
}

impl View for PartialWriteFailureFileSystemBackend {
    type V = Map<Seq<char>, StoredEntry>;

    closed spec fn view(&self) -> Map<Seq<char>, StoredEntry> {
        self.inner@
    }
}

impl PartialWriteFailureFileSystemBackend {
    /// A filesystem that holds nothing.
    pub fn new() -> (backend: Self)
        ensures
            backend@ == Map::<Seq<char>, StoredEntry>::empty(),
            backend.calls() == Seq::<FileCall>::empty(),
    {
        PartialWriteFailureFileSystemBackend {
            inner: MemoryFileSystemBackend::new(),
            log: Ghost(Seq::empty()),
        }
    }

    /// The bytes stored at `path`, if a file is there.
    pub fn read(&self, path: &str) -> (content: Option<Vec<u8>>)
        ensures
            match content {
                Some(bytes) => self@.contains_key(path@) && self@[path@] == StoredEntry::File(
                    bytes@,
                ),
                None => !(self@.contains_key(path@) && self@[path@] is File),
            },
    {
        self.inner.read(path)
    }
}

impl Default for PartialWriteFailureFileSystemBackend {
    fn default() -> (backend: Self)
        ensures
            backend@ == Map::<Seq<char>, StoredEntry>::empty(),
            backend.calls() == Seq::<FileCall>::empty(),
    {
        Self::new()
    }
}

impl FileSystemBackend for PartialWriteFailureFileSystemBackend {
    closed spec fn calls(&self) -> Seq<FileCall> {
        self.log@
    }

    fn read_all(&mut self, path: &str, probe_limit: u64) -> (result: Result<
        Vec<u8>,
        FileSystemError,
    >)
        ensures
            final(self)@ == old(self)@,
            match content_reply(result) {
                Ok(bytes) => readable(old(self)@, path@, probe_limit) == Some(bytes),
                Err(error) => if old(self)@.contains_key(path@) {
                    error is NotFile && readable(old(self)@, path@, probe_limit) is None
                } else {
                    is_host_error(
                        error,
                        HostIoErrorKind::NotFound,
                        kind_text(HostIoErrorKind::NotFound),
                    )
                },
            },
    {
        let result: Result<Vec<u8>, FileSystemError> = self.inner.stored_read_all(path, probe_limit);
        self.log = Ghost(
            self.log@.push(
                FileCall::ReadAll { path: path@, probe_limit, reply: content_reply(result) },
            ),
        );
        result
    }

    fn write_all(&mut self, path: &str, content: &[u8]) -> (result: Result<(), FileSystemError>)
        ensures
            result matches Err(error) && is_host_error(
                error,
                HostIoErrorKind::Other,
                "simulated flush failure after content was written"@,
            ),
            final(self)@ == after_write(old(self)@, path@, content@),
    {
        let _stored: Result<(), FileSystemError> = self.inner.stored_write_all(path, content);
        let result: Result<(), FileSystemError> = Err(
            FileSystemError::Io(
                HostIoError::new(
                    HostIoErrorKind::Other,
                    "simulated flush failure after content was written",
                ),
            ),
        );
        self.log = Ghost(
            self.log@.push(
                FileCall::WriteAll { append: false, path: path@, content: content@, reply: result },
            ),
        );
        result
    }

    fn file_exists(&mut self, path: &str) -> (result: Result<bool, FileSystemError>)
        ensures
            final(self)@ == old(self)@,
            result == Ok::<bool, FileSystemError>(
                old(self)@.contains_key(path@) && old(self)@[path@] is File,
            ),
    {
        let result: Result<bool, FileSystemError> = self.inner.stored_file_exists(path);
        self.log = Ghost(
            self.log@.push(
                FileCall::Path { operation: PathOperation::FileExists, path: path@, reply: result },
            ),
        );
        result
    }

    fn directory_exists(&mut self, path: &str) -> (result: Result<bool, FileSystemError>)
        ensures
            final(self)@ == old(self)@,
            result == Ok::<bool, FileSystemError>(
                old(self)@.contains_key(path@) && old(self)@[path@] is Directory,
            ),
    {
        let result: Result<bool, FileSystemError> = self.inner.stored_directory_exists(path);
        self.log = Ghost(
            self.log@.push(
                FileCall::Path { operation: PathOperation::DirectoryExists, path: path@, reply: result },
            ),
        );
        result
    }

    fn create_directory(&mut self, path: &str) -> (result: Result<bool, FileSystemError>)
        ensures
            if !old(self)@.contains_key(path@) {
                result == Ok::<bool, FileSystemError>(true) && final(self)@ == old(self)@.insert(
                    path@,
                    StoredEntry::Directory,
                )
            } else {
                &&& final(self)@ == old(self)@
                &&& if old(self)@[path@] is Directory {
                    result == Ok::<bool, FileSystemError>(false)
                } else {
                    result matches Err(FileSystemError::NotDirectory)
                }
            },
    {
        let result: Result<bool, FileSystemError> = self.inner.stored_create_directory(path);
        self.log = Ghost(
            self.log@.push(
                FileCall::Path { operation: PathOperation::CreateDirectory, path: path@, reply: result },
            ),
        );
        result
    }

    fn delete_file(&mut self, path: &str) -> (result: Result<bool, FileSystemError>)
        ensures
            if !old(self)@.contains_key(path@) {
                result == Ok::<bool, FileSystemError>(false) && final(self)@ == old(self)@
            } else if old(self)@[path@] is File {
                result == Ok::<bool, FileSystemError>(true) && final(self)@ == old(self)@.remove(
                    path@,
                )
            } else {
                result matches Err(FileSystemError::NotFile) && final(self)@ == old(self)@
            },
    {
        let result: Result<bool, FileSystemError> = self.inner.stored_delete_file(path);
        self.log = Ghost(
            self.log@.push(
                FileCall::Path { operation: PathOperation::DeleteFile, path: path@, reply: result },
            ),
        );
        result
    }

    fn delete_directory(&mut self, path: &str) -> (result: Result<bool, FileSystemError>)
        ensures
            match result {
                Ok(existed) => if existed {
                    &&& old(self)@.contains_key(path@)
                    &&& old(self)@[path@] is Directory
                    &&& forall|inner: Seq<char>| #[trigger]
                        old(self)@.contains_key(inner) ==> !is_child(
                            encode_utf8(inner),
                            encode_utf8(path@),
                        )
                    &&& final(self)@ == old(self)@.remove(path@)
                } else {
                    !old(self)@.contains_key(path@) && final(self)@ == old(self)@
                },
                Err(error) => {
                    &&& final(self)@ == old(self)@
                    &&& old(self)@.contains_key(path@)
                    &&& if old(self)@[path@] is Directory {
                        &&& exists|inner: Seq<char>| #[trigger]
                            old(self)@.contains_key(inner) && is_child(
                                encode_utf8(inner),
                                encode_utf8(path@),
                            )
                        &&& is_host_error(
                            error,
                            HostIoErrorKind::DirectoryNotEmpty,
                            "directory is not empty"@,
                        )
                    } else {
                        error is NotDirectory
                    }
                },
            },
    {
        let result: Result<bool, FileSystemError> = self.inner.stored_delete_directory(path);
        self.log = Ghost(
            self.log@.push(
                FileCall::Path { operation: PathOperation::DeleteDirectory, path: path@, reply: result },
            ),
        );
        result
    }

    fn append_all(&mut self, path: &str, content: &[u8]) -> (result: Result<(), FileSystemError>)
        ensures
            final(self)@ == old(self)@,
            result matches Err(error) && is_host_error(
                error,
                HostIoErrorKind::Unsupported,
                "filesystem backend does not implement append"@,
            ),
    {
        let result: Result<(), FileSystemError> = Err(no_append());
        self.log = Ghost(
            self.log@.push(
                FileCall::WriteAll { append: true, path: path@, content: content@, reply: result },
            ),
        );
        result
    }

    fn list_files(
        &mut self,
        directory: &str,
        max_entries: usize,
        max_total_bytes: usize,
    ) -> (result: Result<Vec<String>, FileSystemError>)
        ensures
            final(self)@ == old(self)@,
            result matches Err(error) && is_host_error(
                error,
                HostIoErrorKind::Unsupported,
                "filesystem backend does not implement directory enumeration"@,
            ),
    {
        let result: Result<Vec<String>, FileSystemError> = Err(no_listing());
        self.log = Ghost(
            self.log@.push(
                FileCall::List {
                    directories: false,
                    directory: directory@,
                    max_entries,
                    max_total_bytes,
                    reply: paths_reply(result),
                },
            ),
        );
        result
    }

    fn list_directories(
        &mut self,
        directory: &str,
        max_entries: usize,
        max_total_bytes: usize,
    ) -> (result: Result<Vec<String>, FileSystemError>)
        ensures
            final(self)@ == old(self)@,
            result matches Err(error) && is_host_error(
                error,
                HostIoErrorKind::Unsupported,
                "filesystem backend does not implement directory enumeration"@,
            ),
    {
        let result: Result<Vec<String>, FileSystemError> = Err(no_listing());
        self.log = Ghost(
            self.log@.push(
                FileCall::List {
                    directories: true,
                    directory: directory@,
                    max_entries,
                    max_total_bytes,
                    reply: paths_reply(result),
                },
            ),
        );
        result
    }
}

} // verus!

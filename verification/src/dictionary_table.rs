//! The hash table of a dictionary as specifications see it: bucket heads and
//! cells in insertion order, linked from the newest to the oldest.

use vstd::bytes::spec_u64_from_le_bytes;
use vstd::prelude::*;

use crate::siphash::sip_hash;
use crate::string_store::string_at;

verus! {

/// What a bucket or a link holds when nothing follows.
pub const DICTIONARY_EMPTY_BUCKET: u32 = 0xffff_ffff;

/// The kinds of keys that a dictionary can have.
#[derive(Clone, Copy, Debug, PartialEq, Eq, Structural)]
pub enum DictionaryKeyKind {
    Bool,
    Char,
    SByte,
    Byte,
    Short,
    UShort,
    Int,
    UInt,
    Long,
    ULong,
    String,
}

/// One cell of the table. A removed entry leaves its cell behind with `live`
/// zero.
pub struct DictionaryCell {
    pub hash: u64,
    pub next: u32,
    pub live: u8,
    pub key: Seq<u8>,
    pub value: Seq<u8>,
}

/// The whole table.
pub struct DictionaryTable {
    pub heads: Seq<u32>,
    pub cells: Seq<DictionaryCell>,
}

/// The bytes that identify a key: those of its slot, or for a string those of
/// the string that the slot refers to, if it refers to one.
pub open spec fn key_content(m: Map<int, u8>, kind: DictionaryKeyKind, slot: Seq<u8>) -> Option<
    Seq<u8>,
> {
    if kind == DictionaryKeyKind::String {
        string_at(m, spec_u64_from_le_bytes(slot))
    } else {
        Some(slot)
    }
}

/// The bucket of a hash among `capacity` buckets.
pub open spec fn bucket_of(hash: u64, capacity: int) -> int {
    (hash & ((capacity - 1) as u64)) as int
}

/// Whether cell `i` holds an entry of bucket `b`.
pub open spec fn in_bucket(cells: Seq<DictionaryCell>, capacity: int, b: int, i: int) -> bool {
    cells[i].live == 1 && bucket_of(cells[i].hash, capacity) == b
}

/// The newest entry of bucket `b` among the first `n` cells.
pub open spec fn newest(cells: Seq<DictionaryCell>, capacity: int, b: int, n: int) -> u32
    decreases n,
{
    if n <= 0 {
        DICTIONARY_EMPTY_BUCKET
    } else if in_bucket(cells, capacity, b, n - 1) {
        (n - 1) as u32
    } else {
        newest(cells, capacity, b, n - 1)
    }
}

/// The entries among the first `n` cells, in insertion order.
pub open spec fn live_entries(cells: Seq<DictionaryCell>, n: int) -> Seq<(Seq<u8>, Seq<u8>)>
    decreases n,
{
    if n <= 0 {
        Seq::empty()
    } else if cells[n - 1].live == 1 {
        live_entries(cells, n - 1).push((cells[n - 1].key, cells[n - 1].value))
    } else {
        live_entries(cells, n - 1)
    }
}

/// The cells with an entry among the first `n`, in order.
pub open spec fn live_cells(cells: Seq<DictionaryCell>, n: int) -> Seq<DictionaryCell>
    decreases n,
{
    if n <= 0 {
        Seq::empty()
    } else if cells[n - 1].live == 1 {
        live_cells(cells, n - 1).push(cells[n - 1])
    } else {
        live_cells(cells, n - 1)
    }
}

/// The heads of `capacity` buckets over `cells`.
pub open spec fn heads_of(cells: Seq<DictionaryCell>, capacity: int) -> Seq<u32> {
    Seq::new(capacity as nat, |b: int| newest(cells, capacity, b, cells.len() as int))
}

/// `cells`, each linked to the entry before it in its bucket.
pub open spec fn relinked(cells: Seq<DictionaryCell>, capacity: int) -> Seq<DictionaryCell> {
    Seq::new(
        cells.len(),
        |i: int|
            DictionaryCell {
                next: newest(cells, capacity, bucket_of(cells[i].hash, capacity), i),
                ..cells[i]
            },
    )
}

/// How a search through a chain ends.
pub enum DictionarySearch {
    Missing,
    Found { index: u32, previous: u32 },
    Cyclic,
    BadMarker,
    BadKey,
}

/// Follows the chain from cell `current` on, looking for a key.
pub open spec fn walk(
    cells: Seq<DictionaryCell>,
    m: Map<int, u8>,
    kind: DictionaryKeyKind,
    content: Seq<u8>,
    hash: u64,
    current: u32,
    previous: u32,
    steps: int,
) -> DictionarySearch
    decreases cells.len() - steps,
{
    if current == DICTIONARY_EMPTY_BUCKET {
        DictionarySearch::Missing
    } else if steps >= cells.len() || current >= cells.len() {
        DictionarySearch::Cyclic
    } else {
        let cell = cells[current as int];
        if cell.live > 1 {
            DictionarySearch::BadMarker
        } else if cell.live == 1 && cell.hash == hash && key_content(m, kind, cell.key) is None {
            DictionarySearch::BadKey
        } else if cell.live == 1 && cell.hash == hash && key_content(m, kind, cell.key)->0
            == content {
            DictionarySearch::Found { index: current, previous }
        } else {
            walk(cells, m, kind, content, hash, cell.next, current, steps + 1)
        }
    }
}

impl DictionaryTable {
    /// The entries in insertion order.
    pub open spec fn entries(self) -> Seq<(Seq<u8>, Seq<u8>)> {
        live_entries(self.cells, self.cells.len() as int)
    }

    /// The end of the search for a key.
    pub open spec fn search(
        self,
        m: Map<int, u8>,
        kind: DictionaryKeyKind,
        content: Seq<u8>,
        hash: u64,
    ) -> DictionarySearch {
        walk(
            self.cells,
            m,
            kind,
            content,
            hash,
            self.heads[bucket_of(hash, self.heads.len() as int)],
            DICTIONARY_EMPTY_BUCKET,
            0,
        )
    }

    /// The table with one more entry at the front of its chain.
    pub open spec fn inserted(self, hash: u64, key: Seq<u8>, value: Seq<u8>) -> DictionaryTable {
        let b = bucket_of(hash, self.heads.len() as int);
        DictionaryTable {
            heads: self.heads.update(b, self.cells.len() as u32),
            cells: self.cells.push(
                DictionaryCell { hash, next: self.heads[b], live: 1, key, value },
            ),
        }
    }

    /// The table with another value in cell `i`.
    pub open spec fn replaced(self, i: int, value: Seq<u8>) -> DictionaryTable {
        DictionaryTable {
            cells: self.cells.update(i, DictionaryCell { value, ..self.cells[i] }),
            ..self
        }
    }

    /// The table with entry `i` taken out of its chain, in which it follows
    /// cell `previous` or comes first.
    pub open spec fn removed(self, i: int, previous: u32) -> DictionaryTable {
        let next = self.cells[i].next;
        let b = bucket_of(self.cells[i].hash, self.heads.len() as int);
        let p = previous as int;
        let unlinked = if previous == DICTIONARY_EMPTY_BUCKET {
            self.cells
        } else {
            self.cells.update(p, DictionaryCell { next, ..self.cells[p] })
        };
        DictionaryTable {
            heads: if previous == DICTIONARY_EMPTY_BUCKET {
                self.heads.update(b, next)
            } else {
                self.heads
            },
            cells: unlinked.update(i, DictionaryCell { live: 0, ..unlinked[i] }),
        }
    }

    /// The table of the same entries over `capacity` buckets, with no cells left
    /// behind by removed entries.
    pub open spec fn rebuilt(self, capacity: int) -> DictionaryTable {
        let kept = live_cells(self.cells, self.cells.len() as int);
        DictionaryTable { heads: heads_of(kept, capacity), cells: relinked(kept, capacity) }
    }

    /// Every bucket leads to its entries, from the newest to the oldest, and to
    /// nothing else.
    pub open spec fn linked(self) -> bool {
        let n = self.cells.len() as int;
        let capacity = self.heads.len() as int;
        &&& 0 < capacity <= 0x8000_0000
        &&& n < DICTIONARY_EMPTY_BUCKET
        &&& forall|i: int| 0 <= i < n ==> (#[trigger] self.cells[i]).live <= 1
        &&& forall|b: int|
            0 <= b < capacity ==> #[trigger] self.heads[b] == newest(self.cells, capacity, b, n)
        &&& forall|i: int|
            0 <= i < n && (#[trigger] self.cells[i]).live == 1 ==> self.cells[i].next == newest(
                self.cells,
                capacity,
                bucket_of(self.cells[i].hash, capacity),
                i,
            )
    }

    /// Every entry has a key of its own, and carries the hash of that key.
    pub open spec fn keyed(
        self,
        m: Map<int, u8>,
        kind: DictionaryKeyKind,
        k0: u64,
        k1: u64,
    ) -> bool {
        let n = self.cells.len() as int;
        &&& forall|i: int|
            0 <= i < n && (#[trigger] self.cells[i]).live == 1 ==> {
                &&& key_content(m, kind, self.cells[i].key) is Some
                &&& self.cells[i].hash == sip_hash(
                    k0,
                    k1,
                    key_content(m, kind, self.cells[i].key)->0,
                )
            }
        &&& forall|i: int, j: int|
            0 <= i < j < n && (#[trigger] self.cells[i]).live == 1 && (#[trigger] self.cells[j]).live
                == 1 ==> key_content(m, kind, self.cells[i].key) != key_content(
                m,
                kind,
                self.cells[j].key,
            )
    }
}

pub proof fn lemma_bucket_of(hash: u64, capacity: int)
    requires
        0 < capacity <= 0x8000_0000,
    ensures
        0 <= bucket_of(hash, capacity) < capacity,
{
    let mask = (capacity - 1) as u64;
    assert(hash & mask <= mask) by (bit_vector);
}

/// What `newest` gives is the last cell of the bucket, if there is one.
pub proof fn lemma_newest(cells: Seq<DictionaryCell>, capacity: int, b: int, n: int)
    requires
        0 <= n <= cells.len(),
        n < DICTIONARY_EMPTY_BUCKET,
    ensures
        newest(cells, capacity, b, n) == DICTIONARY_EMPTY_BUCKET || newest(cells, capacity, b, n)
            < n,
        newest(cells, capacity, b, n) != DICTIONARY_EMPTY_BUCKET ==> in_bucket(
            cells,
            capacity,
            b,
            newest(cells, capacity, b, n) as int,
        ),
        forall|j: int|
            0 <= j < n && (newest(cells, capacity, b, n) == DICTIONARY_EMPTY_BUCKET || newest(
                cells,
                capacity,
                b,
                n,
            ) < j) ==> !#[trigger] in_bucket(cells, capacity, b, j),
    decreases n,
{
    if n > 0 {
        if !in_bucket(cells, capacity, b, n - 1) {
            lemma_newest(cells, capacity, b, n - 1);
        }
    }
}

/// `newest` depends on nothing but which cells belong to the bucket.
pub proof fn lemma_newest_same(
    cells: Seq<DictionaryCell>,
    other: Seq<DictionaryCell>,
    capacity: int,
    b: int,
    n: int,
)
    requires
        n <= cells.len(),
        n <= other.len(),
        forall|j: int|
            0 <= j < n ==> #[trigger] in_bucket(other, capacity, b, j) == in_bucket(
                cells,
                capacity,
                b,
                j,
            ),
    ensures
        newest(other, capacity, b, n) == newest(cells, capacity, b, n),
    decreases n,
{
    if n > 0 {
        assert(in_bucket(other, capacity, b, n - 1) == in_bucket(cells, capacity, b, n - 1));
        lemma_newest_same(cells, other, capacity, b, n - 1);
    }
}

/// A search through a linked table finds the entry of a key, and only that.
pub proof fn lemma_walk(
    table: DictionaryTable,
    m: Map<int, u8>,
    kind: DictionaryKeyKind,
    k0: u64,
    k1: u64,
    content: Seq<u8>,
    n: int,
    previous: u32,
    steps: int,
)
    requires
        table.linked(),
        table.keyed(m, kind, k0, k1),
        0 <= n <= table.cells.len(),
        0 <= steps <= table.cells.len() - n,
    ensures
        ({
            let hash = sip_hash(k0, k1, content);
            let b = bucket_of(hash, table.heads.len() as int);
            let first = newest(table.cells, table.heads.len() as int, b, n);
            let end = walk(table.cells, m, kind, content, hash, first, previous, steps);
            &&& end is Missing || end is Found
            &&& end is Missing ==> forall|i: int|
                0 <= i < n && (#[trigger] table.cells[i]).live == 1 ==> key_content(
                    m,
                    kind,
                    table.cells[i].key,
                ) != Some(content)
            &&& end matches DictionarySearch::Found { index, previous: p } ==> {
                &&& index < n
                &&& table.cells[index as int].live == 1
                &&& key_content(m, kind, table.cells[index as int].key) == Some(content)
                &&& table.cells[index as int].hash == hash
                &&& index == first ==> p == previous
                &&& index != first ==> {
                    &&& index < p < n
                    &&& in_bucket(table.cells, table.heads.len() as int, b, p as int)
                    &&& table.cells[p as int].next == index
                }
            }
        }),
    decreases n,
{
    let hash = sip_hash(k0, k1, content);
    let capacity = table.heads.len() as int;
    let b = bucket_of(hash, capacity);
    let first = newest(table.cells, capacity, b, n);
    lemma_newest(table.cells, capacity, b, n);
    if first == DICTIONARY_EMPTY_BUCKET {
        assert forall|i: int| 0 <= i < n && (#[trigger] table.cells[i]).live == 1 implies key_content(
            m,
            kind,
            table.cells[i].key,
        ) != Some(content) by {
            assert(!in_bucket(table.cells, capacity, b, i));
        }
    } else {
        let cell = table.cells[first as int];
        assert(in_bucket(table.cells, capacity, b, first as int));
        assert(cell.live == 1);
        if cell.hash == hash && key_content(m, kind, cell.key) == Some(content) {
        } else {
            assert(cell.next == newest(table.cells, capacity, b, first as int));
            lemma_walk(table, m, kind, k0, k1, content, first as int, first, steps + 1);
            let end = walk(table.cells, m, kind, content, hash, cell.next, first, steps + 1);
            assert(walk(table.cells, m, kind, content, hash, first, previous, steps) == end);
            if end is Missing {
                assert forall|i: int|
                    0 <= i < n && (#[trigger] table.cells[i]).live == 1 implies key_content(
                    m,
                    kind,
                    table.cells[i].key,
                ) != Some(content) by {
                    if i > first {
                        assert(!in_bucket(table.cells, capacity, b, i));
                    }
                }
            }
        }
    }
}


/// The entries depend on nothing but the markers, keys and values.
pub proof fn lemma_entries_same(
    cells: Seq<DictionaryCell>,
    other: Seq<DictionaryCell>,
    n: int,
)
    requires
        n <= cells.len(),
        n <= other.len(),
        forall|j: int|
            0 <= j < n ==> {
                &&& (#[trigger] other[j]).live == cells[j].live
                &&& other[j].key == cells[j].key
                &&& other[j].value == cells[j].value
            },
    ensures
        live_entries(other, n) == live_entries(cells, n),
    decreases n,
{
    if n > 0 {
        assert(other[n - 1].live == cells[n - 1].live);
        lemma_entries_same(cells, other, n - 1);
    }
}

/// A linked table with one more entry is linked, and its entries come in the
/// order in which they were inserted.
pub proof fn lemma_inserted(
    table: DictionaryTable,
    m: Map<int, u8>,
    kind: DictionaryKeyKind,
    k0: u64,
    k1: u64,
    content: Seq<u8>,
    key: Seq<u8>,
    value: Seq<u8>,
)
    requires
        table.linked(),
        table.keyed(m, kind, k0, k1),
        table.cells.len() + 1 < DICTIONARY_EMPTY_BUCKET,
        key_content(m, kind, key) == Some(content),
        forall|i: int|
            0 <= i < table.cells.len() && (#[trigger] table.cells[i]).live == 1 ==> key_content(
                m,
                kind,
                table.cells[i].key,
            ) != Some(content),
    ensures
        table.inserted(sip_hash(k0, k1, content), key, value).linked(),
        table.inserted(sip_hash(k0, k1, content), key, value).keyed(m, kind, k0, k1),
        table.inserted(sip_hash(k0, k1, content), key, value).entries() == table.entries().push(
            (key, value),
        ),
{
    let hash = sip_hash(k0, k1, content);
    let after = table.inserted(hash, key, value);
    let capacity = table.heads.len() as int;
    let n = table.cells.len() as int;
    let b = bucket_of(hash, capacity);
    lemma_bucket_of(hash, capacity);
    assert forall|c: int, k: int| 0 <= k < n implies #[trigger] in_bucket(
        after.cells,
        capacity,
        c,
        k,
    ) == in_bucket(table.cells, capacity, c, k) by {}
    assert forall|c: int| 0 <= c < capacity implies #[trigger] after.heads[c] == newest(
        after.cells,
        capacity,
        c,
        n + 1,
    ) by {
        lemma_newest_same(table.cells, after.cells, capacity, c, n);
        assert(table.heads[c] == newest(table.cells, capacity, c, n));
    }
    assert forall|i: int| 0 <= i < n + 1 && (#[trigger] after.cells[i]).live == 1 implies after.cells[i].next
        == newest(after.cells, capacity, bucket_of(after.cells[i].hash, capacity), i) by {
        let c = bucket_of(after.cells[i].hash, capacity);
        lemma_newest_same(table.cells, after.cells, capacity, c, i);
        if i == n {
            assert(table.heads[b] == newest(table.cells, capacity, b, n));
        } else {
            assert(table.cells[i].live == 1);
        }
    }
    lemma_entries_same(table.cells, after.cells, n);
}

/// Another value for an entry changes nothing but that value.
pub proof fn lemma_replaced(
    table: DictionaryTable,
    m: Map<int, u8>,
    kind: DictionaryKeyKind,
    k0: u64,
    k1: u64,
    i: int,
    value: Seq<u8>,
)
    requires
        table.linked(),
        table.keyed(m, kind, k0, k1),
        0 <= i < table.cells.len(),
        table.cells[i].live == 1,
    ensures
        table.replaced(i, value).linked(),
        table.replaced(i, value).keyed(m, kind, k0, k1),
        live_entries(table.cells, i).len() < table.entries().len(),
        table.replaced(i, value).entries() == table.entries().update(
            live_entries(table.cells, i).len() as int,
            (table.cells[i].key, value),
        ),
{
    let after = table.replaced(i, value);
    let capacity = table.heads.len() as int;
    let n = table.cells.len() as int;
    assert forall|c: int, k: int| 0 <= k < n implies #[trigger] in_bucket(
        after.cells,
        capacity,
        c,
        k,
    ) == in_bucket(table.cells, capacity, c, k) by {}
    assert forall|c: int| 0 <= c < capacity implies #[trigger] after.heads[c] == newest(
        after.cells,
        capacity,
        c,
        n,
    ) by {
        lemma_newest_same(table.cells, after.cells, capacity, c, n);
    }
    assert forall|j: int| 0 <= j < n && (#[trigger] after.cells[j]).live == 1 implies after.cells[j].next
        == newest(after.cells, capacity, bucket_of(after.cells[j].hash, capacity), j) by {
        assert(table.cells[j].live == 1);
        lemma_newest_same(
            table.cells,
            after.cells,
            capacity,
            bucket_of(after.cells[j].hash, capacity),
            j,
        );
    }
    lemma_replaced_entries(table, i, value, n);
}

proof fn lemma_replaced_entries(table: DictionaryTable, i: int, value: Seq<u8>, n: int)
    requires
        0 <= i < n <= table.cells.len(),
        table.cells[i].live == 1,
    ensures
        live_entries(table.cells, i).len() < live_entries(table.cells, n).len(),
        live_entries(table.replaced(i, value).cells, n) == live_entries(table.cells, n).update(
            live_entries(table.cells, i).len() as int,
            (table.cells[i].key, value),
        ),
    decreases n,
{
    let after = table.replaced(i, value);
    let p = live_entries(table.cells, i).len() as int;
    if n == i + 1 {
        lemma_entries_same(table.cells, after.cells, i);
        assert(live_entries(after.cells, n) =~= live_entries(table.cells, n).update(
            p,
            (table.cells[i].key, value),
        ));
    } else {
        lemma_replaced_entries(table, i, value, n - 1);
        assert(after.cells[n - 1] == table.cells[n - 1]);
        assert(live_entries(after.cells, n) =~= live_entries(table.cells, n).update(
            p,
            (table.cells[i].key, value),
        ));
    }
}

/// A linked table without one of its entries is linked, and the other entries
/// keep their order.
pub proof fn lemma_removed(
    table: DictionaryTable,
    m: Map<int, u8>,
    kind: DictionaryKeyKind,
    k0: u64,
    k1: u64,
    i: int,
    previous: u32,
)
    requires
        table.linked(),
        table.keyed(m, kind, k0, k1),
        0 <= i < table.cells.len(),
        table.cells[i].live == 1,
        ({
            let capacity = table.heads.len() as int;
            let b = bucket_of(table.cells[i].hash, capacity);
            &&& previous == DICTIONARY_EMPTY_BUCKET ==> table.heads[b] == i
            &&& previous != DICTIONARY_EMPTY_BUCKET ==> {
                &&& i < previous < table.cells.len()
                &&& in_bucket(table.cells, capacity, b, previous as int)
                &&& table.cells[previous as int].next == i
            }
        }),
    ensures
        table.removed(i, previous).linked(),
        table.removed(i, previous).keyed(m, kind, k0, k1),
        live_entries(table.cells, i).len() < table.entries().len(),
        table.removed(i, previous).entries() == table.entries().remove(
            live_entries(table.cells, i).len() as int,
        ),
{
    let after = table.removed(i, previous);
    let capacity = table.heads.len() as int;
    let n = table.cells.len() as int;
    let b = bucket_of(table.cells[i].hash, capacity);
    let p = previous as int;
    lemma_bucket_of(table.cells[i].hash, capacity);
    assert(in_bucket(table.cells, capacity, b, i));
    assert forall|c: int, k: int| 0 <= k < n implies #[trigger] in_bucket(
        after.cells,
        capacity,
        c,
        k,
    ) == (in_bucket(table.cells, capacity, c, k) && k != i) by {}
    assert forall|c: int| 0 <= c < capacity implies #[trigger] after.heads[c] == newest(
        after.cells,
        capacity,
        c,
        n,
    ) by {
        assert(table.heads[c] == newest(table.cells, capacity, c, n));
        lemma_newest_without(table.cells, after.cells, capacity, c, i, n);
        if c == b && previous != DICTIONARY_EMPTY_BUCKET {
            lemma_newest(table.cells, capacity, b, n);
            if newest(table.cells, capacity, b, n) == i {
                assert(!in_bucket(table.cells, capacity, b, p));
            }
        }
        if c != b && newest(table.cells, capacity, c, n) == i {
            lemma_newest(table.cells, capacity, c, n);
        }
    }
    assert forall|j: int| 0 <= j < n && (#[trigger] after.cells[j]).live == 1 implies after.cells[j].next
        == newest(after.cells, capacity, bucket_of(after.cells[j].hash, capacity), j) by {
        let c = bucket_of(after.cells[j].hash, capacity);
        assert(table.cells[j].live == 1);
        assert(table.cells[j].hash == after.cells[j].hash);
        assert(table.cells[j].next == newest(table.cells, capacity, c, j));
        lemma_newest(table.cells, capacity, c, j);
        if j > i {
            lemma_newest_without(table.cells, after.cells, capacity, c, i, j);
            if j != p && table.cells[j].next == i {
                // `j` and `previous` cannot both follow `i`.
                assert(in_bucket(table.cells, capacity, c, i));
                if previous == DICTIONARY_EMPTY_BUCKET {
                    lemma_newest(table.cells, capacity, b, n);
                    assert(in_bucket(table.cells, capacity, b, j));
                } else if p < j {
                    assert(in_bucket(table.cells, capacity, b, p));
                } else {
                    lemma_newest(table.cells, capacity, b, p);
                    assert(in_bucket(table.cells, capacity, b, j));
                }
            }
        } else {
            lemma_newest_same(table.cells, after.cells, capacity, c, j);
        }
    }
    assert forall|x: int, y: int|
        0 <= x < y < n && (#[trigger] after.cells[x]).live == 1 && (#[trigger] after.cells[y]).live
            == 1 implies key_content(m, kind, after.cells[x].key) != key_content(
        m,
        kind,
        after.cells[y].key,
    ) by {
        assert(table.cells[x].live == 1 && table.cells[y].live == 1);
    }
    assert forall|x: int| 0 <= x < n && (#[trigger] after.cells[x]).live == 1 implies {
        &&& key_content(m, kind, after.cells[x].key) is Some
        &&& after.cells[x].hash == sip_hash(k0, k1, key_content(m, kind, after.cells[x].key)->0)
    } by {
        assert(table.cells[x].live == 1);
    }
    lemma_removed_entries(table.cells, after.cells, i, n);
}

/// The newest entry of a bucket after cell `i` lost its entry.
proof fn lemma_newest_without(
    cells: Seq<DictionaryCell>,
    after: Seq<DictionaryCell>,
    capacity: int,
    c: int,
    i: int,
    n: int,
)
    requires
        0 <= i < n <= cells.len(),
        n < DICTIONARY_EMPTY_BUCKET,
        after.len() == cells.len(),
        forall|k: int|
            0 <= k < n ==> #[trigger] in_bucket(after, capacity, c, k) == (in_bucket(
                cells,
                capacity,
                c,
                k,
            ) && k != i),
    ensures
        newest(after, capacity, c, n) == if newest(cells, capacity, c, n) == i {
            newest(cells, capacity, c, i)
        } else {
            newest(cells, capacity, c, n)
        },
    decreases n,
{
    if n == i + 1 {
        assert(!in_bucket(after, capacity, c, i));
        lemma_newest_same(cells, after, capacity, c, i);
        lemma_newest(cells, capacity, c, i);
    } else {
        assert(in_bucket(after, capacity, c, n - 1) == in_bucket(cells, capacity, c, n - 1));
        lemma_newest_without(cells, after, capacity, c, i, n - 1);
    }
}

proof fn lemma_removed_entries(
    cells: Seq<DictionaryCell>,
    after: Seq<DictionaryCell>,
    i: int,
    n: int,
)
    requires
        0 <= i < n <= cells.len(),
        after.len() == cells.len(),
        cells[i].live == 1,
        after[i].live == 0,
        forall|j: int|
            0 <= j < n && j != i ==> {
                &&& (#[trigger] after[j]).live == cells[j].live
                &&& after[j].key == cells[j].key
                &&& after[j].value == cells[j].value
            },
    ensures
        live_entries(cells, i).len() < live_entries(cells, n).len(),
        live_entries(after, n) == live_entries(cells, n).remove(
            live_entries(cells, i).len() as int,
        ),
    decreases n,
{
    let p = live_entries(cells, i).len() as int;
    if n == i + 1 {
        lemma_entries_same(cells, after, i);
    } else {
        lemma_removed_entries(cells, after, i, n - 1);
        assert(after[n - 1].live == cells[n - 1].live);
    }
    assert(live_entries(after, n) =~= live_entries(cells, n).remove(p));
}

/// The cells with entries are the entries.
pub proof fn lemma_live_cells(cells: Seq<DictionaryCell>, n: int)
    requires
        0 <= n <= cells.len(),
    ensures
        live_cells(cells, n).len() <= n,
        live_cells(cells, n).len() == live_entries(cells, n).len(),
        forall|k: int| 0 <= k < live_cells(cells, n).len() ==> (#[trigger] live_cells(cells, n)[k]).live == 1,
        forall|k: int|
            0 <= k < live_cells(cells, n).len() ==> exists|j: int|
                0 <= j < n && cells[j] == #[trigger] live_cells(cells, n)[k],
        live_entries(live_cells(cells, n), live_cells(cells, n).len() as int) == live_entries(
            cells,
            n,
        ),
    decreases n,
{
    if n > 0 {
        lemma_live_cells(cells, n - 1);
        let before = live_cells(cells, n - 1);
        let kept = live_cells(cells, n);
        if cells[n - 1].live == 1 {
            lemma_entries_same(before, kept, before.len() as int);
            assert forall|k: int| 0 <= k < kept.len() implies exists|j: int|
                0 <= j < n && cells[j] == #[trigger] kept[k] by {
                if k < before.len() {
                    assert(kept[k] == before[k]);
                } else {
                    assert(cells[n - 1] == kept[k]);
                }
            }
        } else {
            assert forall|k: int| 0 <= k < kept.len() implies exists|j: int|
                0 <= j < n && cells[j] == #[trigger] kept[k] by {
                assert(kept[k] == before[k]);
            }
        }
    }
}

/// The entries of distinct keys stay distinct when dead cells are dropped.
proof fn lemma_live_cells_distinct(
    table: DictionaryTable,
    m: Map<int, u8>,
    kind: DictionaryKeyKind,
    k0: u64,
    k1: u64,
    n: int,
)
    requires
        table.keyed(m, kind, k0, k1),
        0 <= n <= table.cells.len(),
    ensures
        forall|x: int, y: int|
            0 <= x < y < live_cells(table.cells, n).len() ==> key_content(
                m,
                kind,
                (#[trigger] live_cells(table.cells, n)[x]).key,
            ) != key_content(m, kind, (#[trigger] live_cells(table.cells, n)[y]).key),
    decreases n,
{
    if n > 0 {
        lemma_live_cells_distinct(table, m, kind, k0, k1, n - 1);
        lemma_live_cells(table.cells, n - 1);
        let before = live_cells(table.cells, n - 1);
        let kept = live_cells(table.cells, n);
        assert forall|x: int, y: int| 0 <= x < y < kept.len() implies key_content(
            m,
            kind,
            (#[trigger] kept[x]).key,
        ) != key_content(m, kind, (#[trigger] kept[y]).key) by {
            assert(kept[x] == before[x]);
            if y < before.len() {
                assert(kept[y] == before[y]);
            } else {
                let j = choose|j: int| 0 <= j < n - 1 && table.cells[j] == before[x];
                assert(table.cells[j].live == 1);
                assert(table.cells[n - 1].live == 1);
            }
        }
    }
}

/// Rebuilding a table over another number of buckets keeps its entries and
/// their order.
pub proof fn lemma_rebuilt(
    table: DictionaryTable,
    m: Map<int, u8>,
    kind: DictionaryKeyKind,
    k0: u64,
    k1: u64,
    capacity: int,
)
    requires
        0 < capacity <= 0x8000_0000,
        table.cells.len() < DICTIONARY_EMPTY_BUCKET,
        table.keyed(m, kind, k0, k1),
    ensures
        table.rebuilt(capacity).linked(),
        table.rebuilt(capacity).keyed(m, kind, k0, k1),
        table.rebuilt(capacity).entries() == table.entries(),
        table.rebuilt(capacity).cells.len() == table.entries().len(),
{
    let n = table.cells.len() as int;
    let kept = live_cells(table.cells, n);
    let after = table.rebuilt(capacity);
    lemma_live_cells(table.cells, n);
    lemma_live_cells_distinct(table, m, kind, k0, k1, n);
    assert forall|c: int, k: int| 0 <= k < kept.len() implies #[trigger] in_bucket(
        after.cells,
        capacity,
        c,
        k,
    ) == in_bucket(kept, capacity, c, k) by {}
    assert forall|i: int| 0 <= i < kept.len() implies (#[trigger] after.cells[i]).live <= 1 by {
        assert(kept[i].live == 1);
    }
    assert forall|c: int| 0 <= c < capacity implies #[trigger] after.heads[c] == newest(
        after.cells,
        capacity,
        c,
        kept.len() as int,
    ) by {
        lemma_newest_same(kept, after.cells, capacity, c, kept.len() as int);
    }
    assert forall|i: int|
        0 <= i < kept.len() && (#[trigger] after.cells[i]).live == 1 implies after.cells[i].next
        == newest(after.cells, capacity, bucket_of(after.cells[i].hash, capacity), i) by {
        lemma_newest_same(kept, after.cells, capacity, bucket_of(kept[i].hash, capacity), i);
    }
    assert forall|i: int| 0 <= i < kept.len() && (#[trigger] after.cells[i]).live == 1 implies {
        &&& key_content(m, kind, after.cells[i].key) is Some
        &&& after.cells[i].hash == sip_hash(k0, k1, key_content(m, kind, after.cells[i].key)->0)
    } by {
        assert(kept[i].live == 1);
        let j = choose|j: int| 0 <= j < n && table.cells[j] == kept[i];
        assert(table.cells[j].live == 1);
    }
    assert forall|x: int, y: int|
        0 <= x < y < kept.len() && (#[trigger] after.cells[x]).live == 1 && (#[trigger] after.cells[y]).live
            == 1 implies key_content(m, kind, after.cells[x].key) != key_content(
        m,
        kind,
        after.cells[y].key,
    ) by {
        assert(key_content(m, kind, kept[x].key) != key_content(m, kind, kept[y].key));
    }
    lemma_entries_same(kept, after.cells, kept.len() as int);
}


/// What one more cell does to heads and links.
pub proof fn lemma_relinked_push(
    cells: Seq<DictionaryCell>,
    cell: DictionaryCell,
    capacity: int,
)
    requires
        0 < capacity <= 0x8000_0000,
        cell.live == 1,
    ensures
        ({
            let b = bucket_of(cell.hash, capacity);
            let heads = heads_of(cells, capacity);
            &&& 0 <= b < capacity
            &&& heads_of(cells.push(cell), capacity) == heads.update(b, cells.len() as u32)
            &&& relinked(cells.push(cell), capacity) == relinked(cells, capacity).push(
                DictionaryCell { next: heads[b], ..cell },
            )
        }),
{
    let more = cells.push(cell);
    let n = cells.len() as int;
    let b = bucket_of(cell.hash, capacity);
    lemma_bucket_of(cell.hash, capacity);
    assert forall|c: int, k: int| 0 <= k < n implies #[trigger] in_bucket(more, capacity, c, k)
        == in_bucket(cells, capacity, c, k) by {}
    assert forall|c: int| 0 <= c < capacity implies #[trigger] heads_of(more, capacity)[c]
        == heads_of(cells, capacity).update(b, n as u32)[c] by {
        lemma_newest_same(cells, more, capacity, c, n);
        assert(in_bucket(more, capacity, c, n) == (c == b));
    }
    assert(heads_of(more, capacity) =~= heads_of(cells, capacity).update(b, n as u32));
    assert forall|i: int| 0 <= i < n + 1 implies #[trigger] relinked(more, capacity)[i] == relinked(
        cells,
        capacity,
    ).push(DictionaryCell { next: heads_of(cells, capacity)[b], ..cell })[i] by {
        lemma_newest_same(cells, more, capacity, bucket_of(more[i].hash, capacity), i);
    }
    assert(relinked(more, capacity) =~= relinked(cells, capacity).push(
        DictionaryCell { next: heads_of(cells, capacity)[b], ..cell },
    ));
}

} // verus!

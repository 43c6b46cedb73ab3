//! What dictionaries keep: every key has one entry, entries stay in the order in
//! which they were added, and what was put in is found.

use vstd::bytes::spec_u64_from_le_bytes;
use vstd::prelude::*;

use crate::array::AsterArray;
use crate::context::ExecutionContext;
use crate::dictionary::{
    dictionary_header_report, entry_layout, insert_plan, key_report, lemma_cell_bounds,
    lemma_entry_layout, lemma_walk_found, AsterDictionary, DictionaryTypes, InsertPlan,
};
use crate::dictionary_table::{
    bucket_of, key_content, lemma_bucket_of, lemma_inserted, lemma_live_cells, lemma_rebuilt,
    lemma_removed, lemma_replaced, lemma_walk, live_cells, live_entries, newest, DictionaryCell,
    DictionaryKeyKind, DictionarySearch, DictionaryTable, DICTIONARY_EMPTY_BUCKET,
};
use crate::list::ListRegion;
use crate::memory::{bytes_at, has_range, overwritten};
use crate::string_store::{lemma_string_same, string_at, STRING_HEADER_SIZE};

verus! {

impl AsterDictionary {
    /// Address `k` lies in one of the buffers.
    pub open spec fn covers(self, k: int) -> bool {
        ||| self.buckets <= k < self.buckets + 4 * self.bucket_capacity
        ||| self.entries <= k < self.entries + self.entry_capacity * self.stride()
    }

    /// The string that a key slot refers to does not lie in the buffers.
    pub open spec fn key_apart(self, m: Map<int, u8>, slot: Seq<u8>) -> bool {
        self.key_kind == DictionaryKeyKind::String ==> {
            let address = spec_u64_from_le_bytes(slot);
            let end = address + STRING_HEADER_SIZE + string_at(m, address)->0.len();
            forall|k: int| address <= k < end ==> !#[trigger] self.covers(k)
        }
    }

    /// A valid dictionary of the context `c`: its header and its table are in
    /// order, it has as many entries as it says, and the strings of its keys lie
    /// outside its buffers.
    pub open spec fn holds_in(self, c: ExecutionContext) -> bool {
        let identity = c.configuration().identity;
        let table = self.table(c.mem());
        &&& dictionary_header_report(self, identity.dictionary_owner_id) is None
        &&& self.layout() is Some
        &&& table.entries().len() == self.length
        &&& self.bucket_capacity > 0 ==> {
            &&& self.stored_in(c.mem())
            &&& table.linked()
            &&& table.keyed(
                c.mem(),
                self.key_kind,
                identity.dictionary_hash_k0,
                identity.dictionary_hash_k1,
            )
            &&& forall|i: int|
                0 <= i < table.cells.len() && (#[trigger] table.cells[i]).live == 1
                    ==> self.key_apart(c.mem(), table.cells[i].key)
        }
    }

    /// The entries in insertion order.
    pub open spec fn entries_in(self, c: ExecutionContext) -> Seq<(Seq<u8>, Seq<u8>)> {
        self.table(c.mem()).entries()
    }
}

/// Entry `p` has the key that is searched for.
pub open spec fn entry_of(
    c: ExecutionContext,
    d: AsterDictionary,
    types: DictionaryTypes,
    key: Option<&[u8]>,
    p: int,
) -> bool {
    &&& 0 <= p < d.entries_in(c).len()
    &&& key_content(c.mem(), d.key_kind, d.entries_in(c)[p].0) == Some(c.sought(types, key))
}

/// A live cell is one of the entries.
proof fn lemma_entry_at(cells: Seq<DictionaryCell>, i: int, n: int)
    requires
        0 <= i < n <= cells.len(),
        cells[i].live == 1,
    ensures
        live_entries(cells, i).len() < live_entries(cells, n).len(),
        live_entries(cells, n)[live_entries(cells, i).len() as int] == (
            cells[i].key,
            cells[i].value,
        ),
    decreases n,
{
    if n > i + 1 {
        lemma_entry_at(cells, i, n - 1);
    }
}

/// An entry is a live cell.
pub proof fn lemma_cell_of_entry(cells: Seq<DictionaryCell>, p: int, n: int) -> (i: int)
    requires
        0 <= n <= cells.len(),
        0 <= p < live_entries(cells, n).len(),
    ensures
        0 <= i < n,
        cells[i].live == 1,
        live_entries(cells, n)[p] == (cells[i].key, cells[i].value),
        live_entries(cells, i).len() == p,
    decreases n,
{
    if cells[n - 1].live == 1 && p == live_entries(cells, n - 1).len() {
        n - 1
    } else {
        lemma_cell_of_entry(cells, p, n - 1)
    }
}

/// A key keeps its meaning while the memory of its string stays as it is.
proof fn lemma_key_kept(
    m: Map<int, u8>,
    w: Map<int, u8>,
    d: AsterDictionary,
    slot: Seq<u8>,
)
    requires
        key_content(m, d.key_kind, slot) is Some,
        d.key_apart(m, slot),
        forall|k: int| #[trigger] m.contains_key(k) && !d.covers(k) ==> w.contains_key(k) && w[k]
            == m[k],
    ensures
        key_content(w, d.key_kind, slot) == key_content(m, d.key_kind, slot),
{
    if d.key_kind == DictionaryKeyKind::String {
        let address = spec_u64_from_le_bytes(slot);
        let length = string_at(m, address)->0.len();
        assert forall|k: int|
            address <= k < address + STRING_HEADER_SIZE + length implies #[trigger] w.contains_key(
            k,
        ) && w[k] == m[k] by {
            assert(!d.covers(k));
            assert(m.contains_key(k)) by {
                if k < address + STRING_HEADER_SIZE {
                    assert(has_range(m, address as int, STRING_HEADER_SIZE as int));
                } else {
                    assert(has_range(m, address + STRING_HEADER_SIZE, length as int));
                }
            }
        }
        lemma_string_same(m, w, address);
    }
}

/// A table keeps its keys while the memory outside the buffers stays as it is.
proof fn lemma_keyed_kept(
    table: DictionaryTable,
    m: Map<int, u8>,
    w: Map<int, u8>,
    d: AsterDictionary,
    k0: u64,
    k1: u64,
)
    requires
        table.keyed(m, d.key_kind, k0, k1),
        forall|i: int|
            0 <= i < table.cells.len() && (#[trigger] table.cells[i]).live == 1 ==> d.key_apart(
                m,
                table.cells[i].key,
            ),
        forall|k: int| #[trigger] m.contains_key(k) && !d.covers(k) ==> w.contains_key(k) && w[k]
            == m[k],
    ensures
        table.keyed(w, d.key_kind, k0, k1),
        forall|i: int|
            0 <= i < table.cells.len() && (#[trigger] table.cells[i]).live == 1 ==> {
                &&& d.key_apart(w, table.cells[i].key)
                &&& key_content(w, d.key_kind, table.cells[i].key) == key_content(
                    m,
                    d.key_kind,
                    table.cells[i].key,
                )
            },
{
    assert forall|i: int|
        0 <= i < table.cells.len() && (#[trigger] table.cells[i]).live == 1 implies {
        &&& d.key_apart(w, table.cells[i].key)
        &&& key_content(w, d.key_kind, table.cells[i].key) == key_content(
            m,
            d.key_kind,
            table.cells[i].key,
        )
    } by {
        lemma_key_kept(m, w, d, table.cells[i].key);
    }
}

/// The keys of the entries of `d` in `after` mean what they meant in `before`.
pub open spec fn keys_mean_the_same(
    before: ExecutionContext,
    after: ExecutionContext,
    d: AsterDictionary,
) -> bool {
    forall|q: int|
        0 <= q < d.entries_in(after).len() ==> key_content(
            after.mem(),
            d.key_kind,
            (#[trigger] d.entries_in(after)[q]).0,
        ) == key_content(before.mem(), d.key_kind, d.entries_in(after)[q].0)
}

/// What holds of the keys of the live cells holds of the keys of the entries.
proof fn lemma_entries_mean_the_same(
    table: DictionaryTable,
    m: Map<int, u8>,
    w: Map<int, u8>,
    kind: DictionaryKeyKind,
)
    requires
        forall|i: int|
            0 <= i < table.cells.len() && (#[trigger] table.cells[i]).live == 1 ==> key_content(
                w,
                kind,
                table.cells[i].key,
            ) == key_content(m, kind, table.cells[i].key),
    ensures
        forall|q: int|
            0 <= q < table.entries().len() ==> key_content(
                w,
                kind,
                (#[trigger] table.entries()[q]).0,
            ) == key_content(m, kind, table.entries()[q].0),
{
    let n = table.cells.len() as int;
    assert forall|q: int| 0 <= q < table.entries().len() implies key_content(
        w,
        kind,
        (#[trigger] table.entries()[q]).0,
    ) == key_content(m, kind, table.entries()[q].0) by {
        let i = lemma_cell_of_entry(table.cells, q, n);
        assert(table.cells[i].live == 1);
    }
}

/// On a valid dictionary, the search for a key that can be read comes to an
/// end: it finds the entry with that key if there is one, and only that.
pub proof fn law_search_finds_exactly_the_entry(
    c: ExecutionContext,
    d: AsterDictionary,
    types: DictionaryTypes,
    key: Option<&[u8]>,
    operation: Seq<char>,
)
    requires
        d.holds_in(c),
        d.types() == types,
        key_report(c.mem(), types.key_kind, key, types.key_size, operation) is None,
    ensures
        c.lookup_report(Some(d), types, key, operation) is None,
        c.lookup(d, types, key) is Missing <==> !exists|p: int| entry_of(c, d, types, key, p),
        c.lookup(d, types, key) is Missing || c.lookup(d, types, key) is Found,
        forall|p: int|
            #[trigger] entry_of(c, d, types, key, p) ==> c.value_of(d, types, key) == Some(
                d.entries_in(c)[p].1,
            ),
{
    let m = c.mem();
    let table = d.table(m);
    let n = table.cells.len() as int;
    let identity = c.configuration().identity;
    let content = c.sought(types, key);
    let hash = c.key_hash(content);
    if d.bucket_capacity == 0 {
        assert(n == 0);
        assert(table.entries().len() == 0);
    } else {
        let b = bucket_of(hash, d.bucket_capacity as int);
        lemma_bucket_of(hash, d.bucket_capacity as int);
        assert(table.heads[b] == newest(table.cells, table.heads.len() as int, b, n));
        lemma_walk(
            table,
            m,
            d.key_kind,
            identity.dictionary_hash_k0,
            identity.dictionary_hash_k1,
            content,
            n,
            DICTIONARY_EMPTY_BUCKET,
            0,
        );
        assert forall|p: int| #[trigger] entry_of(c, d, types, key, p) implies c.value_of(
            d,
            types,
            key,
        ) == Some(d.entries_in(c)[p].1) && c.lookup(d, types, key) is Found by {
            let i = lemma_cell_of_entry(table.cells, p, n);
            assert(table.cells[i].live == 1);
            match c.lookup(d, types, key) {
                DictionarySearch::Found { index, .. } => {
                    assert(table.cells[index as int].live == 1);
                    assert(index == i);
                },
                _ => {},
            }
        }
        match c.lookup(d, types, key) {
            DictionarySearch::Found { index, .. } => {
                lemma_entry_at(table.cells, index as int, n);
                let p = live_entries(table.cells, index as int).len() as int;
                assert(entry_of(c, d, types, key, p));
            },
            _ => {},
        }
    }
}

/// A dictionary that was just created is valid and empty.
pub proof fn law_new_dictionary_is_empty(
    before: ExecutionContext,
    after: ExecutionContext,
    types: DictionaryTypes,
    region: ListRegion,
    d: AsterDictionary,
)
    requires
        after.new_dictionary_outcome(before, types, region, Some(d)),
        entry_layout(types.key_size, types.key_align, types.value_size, types.value_align) is Some,
    ensures
        d.holds_in(after),
        d.entries_in(after) == Seq::<(Seq<u8>, Seq<u8>)>::empty(),
{
    assert(d.table(after.mem()).cells.len() == 0);
    assert(d.entries_in(after) =~= Seq::<(Seq<u8>, Seq<u8>)>::empty());
}


/// Writing inside a buffer leaves memory outside the buffers as it is.
proof fn lemma_write_covered(d: AsterDictionary, m: Map<int, u8>, start: int, bytes: Seq<u8>)
    requires
        forall|k: int| start <= k < start + bytes.len() ==> #[trigger] d.covers(k),
    ensures
        forall|k: int| #[trigger] m.contains_key(k) && !d.covers(k) ==> overwritten(
            m,
            start,
            bytes,
        ).contains_key(k) && overwritten(m, start, bytes)[k] == m[k],
        forall|k: int| #[trigger] overwritten(m, start, bytes).contains_key(k) == m.contains_key(k),
{
}

/// The bytes of an entry lie in the buffers.
proof fn lemma_entry_covered(d: AsterDictionary, i: int)
    requires
        d.layout() is Some,
        0 <= i < d.entry_capacity,
    ensures
        forall|k: int|
            d.entry_address(i) <= k < d.entry_address(i) + d.stride() ==> #[trigger] d.covers(k),
{
    lemma_cell_bounds(d.stride(), i, d.entry_capacity as int);
}

/// Setting the value of a key that is there replaces that value and nothing
/// else: the dictionary stays valid, and every entry stays where it is.
pub proof fn law_set_replaces_in_place(
    before: ExecutionContext,
    after: ExecutionContext,
    d: AsterDictionary,
    longer: AsterDictionary,
    types: DictionaryTypes,
    key: Option<&[u8]>,
    value: &[u8],
    p: int,
    result: i8,
)
    requires
        d.holds_in(before),
        before.error_text() is None,
        d.types() == types,
        key_report(before.mem(), types.key_kind, key, types.key_size, "Set"@) is None,
        value@.len() >= types.value_size,
        entry_of(before, d, types, key, p),
        after.put_outcome(before, d, longer, types, key, Some(value), true, result),
    ensures
        result == 1,
        longer == d,
        longer.holds_in(after),
        longer.entries_in(after) == d.entries_in(before).update(
            p,
            (d.entries_in(before)[p].0, value@.take(types.value_size as int)),
        ),
        keys_mean_the_same(before, after, longer),
        after.error_text() is None,
{
    law_search_finds_exactly_the_entry(before, d, types, key, "Set"@);
    let m = before.mem();
    let w = after.mem();
    let table = d.table(m);
    let n = table.cells.len() as int;
    let identity = before.configuration().identity;
    let k0 = identity.dictionary_hash_k0;
    let k1 = identity.dictionary_hash_k1;
    let bytes = value@.take(types.value_size as int);
    let content = before.sought(types, key);
    match before.lookup(d, types, key) {
        DictionarySearch::Found { index, .. } => {
            let i = lemma_cell_of_entry(table.cells, p, n);
            lemma_walk_found(
                table.cells,
                m,
                d.key_kind,
                content,
                before.key_hash(content),
                table.heads[bucket_of(before.key_hash(content), table.heads.len() as int)],
                DICTIONARY_EMPTY_BUCKET,
                0,
            );
            assert(table.cells[index as int].live == 1 && table.cells[i].live == 1);
            assert(index == i);
            lemma_replaced(table, m, d.key_kind, k0, k1, i, bytes);
            lemma_entry_layout(d.key_size, d.key_align, d.value_size, d.value_align);
            lemma_entry_covered(d, i);
            lemma_write_covered(
                d,
                m,
                d.entry_address(i) + d.layout()->0.value_offset,
                bytes,
            );
            let changed = table.replaced(i, bytes);
            assert forall|j: int|
                0 <= j < n && (#[trigger] changed.cells[j]).live == 1 implies d.key_apart(
                m,
                changed.cells[j].key,
            ) by {
                assert(table.cells[j].live == 1);
            }
            lemma_keyed_kept(changed, m, w, d, k0, k1);
            lemma_entries_mean_the_same(changed, m, w, d.key_kind);
        },
        _ => {},
    }
}

/// Removing a key that is there takes its entry out and nothing else: the
/// dictionary stays valid, and the other entries keep their order.
pub proof fn law_remove_takes_the_entry_out(
    before: ExecutionContext,
    after: ExecutionContext,
    d: AsterDictionary,
    shorter: AsterDictionary,
    types: DictionaryTypes,
    key: Option<&[u8]>,
    p: int,
    result: i8,
)
    requires
        d.holds_in(before),
        before.error_text() is None,
        d.types() == types,
        key_report(before.mem(), types.key_kind, key, types.key_size, "Remove"@) is None,
        entry_of(before, d, types, key, p),
        after.take_outcome(before, d, shorter, types, key, true, result),
    ensures
        result == 1,
        shorter.holds_in(after),
        shorter.entries_in(after) == d.entries_in(before).remove(p),
        keys_mean_the_same(before, after, shorter),
        after.error_text() is None,
{
    law_search_finds_exactly_the_entry(before, d, types, key, "Remove"@);
    let m = before.mem();
    let w = after.mem();
    let table = d.table(m);
    let n = table.cells.len() as int;
    let capacity = table.heads.len() as int;
    let identity = before.configuration().identity;
    let k0 = identity.dictionary_hash_k0;
    let k1 = identity.dictionary_hash_k1;
    let content = before.sought(types, key);
    let hash = before.key_hash(content);
    match before.lookup(d, types, key) {
        DictionarySearch::Found { index, previous } => {
            let i = lemma_cell_of_entry(table.cells, p, n);
            let b = bucket_of(hash, capacity);
            lemma_bucket_of(hash, capacity);
            assert(table.heads[b] == newest(table.cells, capacity, b, n));
            lemma_walk(
                table,
                m,
                d.key_kind,
                k0,
                k1,
                content,
                n,
                DICTIONARY_EMPTY_BUCKET,
                0,
            );
            assert(table.cells[index as int].live == 1 && table.cells[i].live == 1);
            assert(index == i);
            lemma_removed(table, m, d.key_kind, k0, k1, i, previous);
            lemma_entry_layout(d.key_size, d.key_align, d.value_size, d.value_align);
            lemma_entry_covered(d, i);
            let next = vstd::bytes::spec_u32_to_le_bytes(table.cells[i].next);
            vstd::bytes::lemma_auto_spec_u32_to_from_le_bytes();
            let half = if previous == DICTIONARY_EMPTY_BUCKET {
                lemma_write_covered(d, m, d.bucket_address(b), next);
                overwritten(m, d.bucket_address(b), next)
            } else {
                lemma_entry_covered(d, previous as int);
                lemma_write_covered(d, m, d.entry_address(previous as int) + 8, next);
                overwritten(m, d.entry_address(previous as int) + 8, next)
            };
            lemma_write_covered(d, half, d.entry_address(i) + 12, seq![0u8]);
            assert(w == overwritten(half, d.entry_address(i) + 12, seq![0u8]));
            let changed = table.removed(i, previous);
            assert forall|j: int|
                0 <= j < n && (#[trigger] changed.cells[j]).live == 1 implies d.key_apart(
                m,
                changed.cells[j].key,
            ) by {
                assert(table.cells[j].live == 1);
            }
            assert forall|k: int| #[trigger] m.contains_key(k) && !d.covers(k) implies w.contains_key(
                k,
            ) && w[k] == m[k] by {
                assert(half.contains_key(k) && half[k] == m[k]);
            }
            lemma_keyed_kept(changed, m, w, d, k0, k1);
            assert forall|j: int|
                0 <= j < n && (#[trigger] shorter.table(w).cells[j]).live == 1 implies shorter.key_apart(
                w,
                shorter.table(w).cells[j].key,
            ) by {
                assert(changed.cells[j].live == 1);
                assert(d.key_apart(w, changed.cells[j].key));
                assert forall|k: int| #[trigger] shorter.covers(k) implies d.covers(k) by {}
            }
            lemma_entries_mean_the_same(changed, m, w, d.key_kind);
        },
        _ => {},
    }
}

/// A key that is there is not added again: nothing changes.
pub proof fn law_duplicate_is_not_added(
    before: ExecutionContext,
    after: ExecutionContext,
    d: AsterDictionary,
    same: AsterDictionary,
    types: DictionaryTypes,
    key: Option<&[u8]>,
    value: &[u8],
    p: int,
    result: i8,
)
    requires
        d.holds_in(before),
        before.error_text() is None,
        d.types() == types,
        key_report(before.mem(), types.key_kind, key, types.key_size, "Add"@) is None,
        entry_of(before, d, types, key, p),
        after.put_outcome(before, d, same, types, key, Some(value), false, result),
    ensures
        result == 0,
        same == d,
        after.unchanged(before),
{
    law_search_finds_exactly_the_entry(before, d, types, key, "Add"@);
}

/// The table that a new entry is put into: valid, with the same entries, and
/// without the new key.
proof fn lemma_ready_table(
    before: ExecutionContext,
    grown: ExecutionContext,
    d: AsterDictionary,
    ready: AsterDictionary,
    types: DictionaryTypes,
    key: Option<&[u8]>,
)
    requires
        d.holds_in(before),
        d.types() == types,
        key_report(before.mem(), types.key_kind, key, types.key_size, "Add"@) is None,
        before.lookup(d, types, key) is Missing,
        d.bucket_capacity > 0 ==> d.key_apart(
            before.mem(),
            key->0@.take(types.key_size as int),
        ),
        grown.prepare_outcome(before, d, ready, true),
    ensures
        ({
            let identity = before.configuration().identity;
            let table = ready.table(grown.mem());
            let content = before.sought(types, key);
            let slot = key->0@.take(types.key_size as int);
            &&& table.linked()
            &&& table.keyed(
                grown.mem(),
                d.key_kind,
                identity.dictionary_hash_k0,
                identity.dictionary_hash_k1,
            )
            &&& table.entries() == d.entries_in(before)
            &&& key_content(grown.mem(), d.key_kind, slot) == Some(content)
            &&& ready.key_apart(grown.mem(), slot)
            &&& forall|i: int|
                0 <= i < table.cells.len() && (#[trigger] table.cells[i]).live == 1 ==> {
                    &&& key_content(grown.mem(), d.key_kind, table.cells[i].key) != Some(content)
                    &&& key_content(grown.mem(), d.key_kind, table.cells[i].key) == key_content(
                        before.mem(),
                        d.key_kind,
                        table.cells[i].key,
                    )
                    &&& ready.key_apart(grown.mem(), table.cells[i].key)
                }
        }),
{
    let m = before.mem();
    let w = grown.mem();
    let old_table = d.table(m);
    let n = old_table.cells.len() as int;
    let table = ready.table(w);
    let identity = before.configuration().identity;
    let k0 = identity.dictionary_hash_k0;
    let k1 = identity.dictionary_hash_k1;
    let content = before.sought(types, key);
    let slot = key->0@.take(types.key_size as int);
    law_search_finds_exactly_the_entry(before, d, types, key, "Add"@);
    assert forall|i: int|
        0 <= i < n && (#[trigger] old_table.cells[i]).live == 1 implies key_content(
        m,
        d.key_kind,
        old_table.cells[i].key,
    ) != Some(content) by {
        if key_content(m, d.key_kind, old_table.cells[i].key) == Some(content) {
            lemma_entry_at(old_table.cells, i, n);
            let p = live_entries(old_table.cells, i).len() as int;
            assert(entry_of(before, d, types, key, p));
        }
    }
    match insert_plan(d) {
        InsertPlan::Keep => {},
        InsertPlan::Refuse { .. } => {},
        InsertPlan::Rebuild { bucket_capacity, entry_capacity } => {
            let kept = live_cells(old_table.cells, n);
            if d.bucket_capacity == 0 {
                assert(n == 0);
            }
            lemma_rebuilt(old_table, m, d.key_kind, k0, k1, bucket_capacity as int);
            lemma_live_cells(old_table.cells, n);
            assert forall|slot: Seq<u8>| #[trigger] key_content(m, d.key_kind, slot) is Some implies {
                &&& key_content(w, d.key_kind, slot) == key_content(m, d.key_kind, slot)
                &&& ready.key_apart(w, slot)
            } by {
                if d.key_kind == DictionaryKeyKind::String {
                    let address = spec_u64_from_le_bytes(slot);
                    crate::string_store::lemma_string_preserved(m, w, address);
                    let length = string_at(m, address)->0.len();
                    assert forall|k: int|
                        address <= k < address + STRING_HEADER_SIZE + length implies !#[trigger] ready.covers(
                        k,
                    ) by {
                        assert(m.contains_key(k)) by {
                            if k < address + STRING_HEADER_SIZE {
                                assert(has_range(m, address as int, STRING_HEADER_SIZE as int));
                            } else {
                                assert(has_range(
                                    m,
                                    address + STRING_HEADER_SIZE,
                                    length as int,
                                ));
                            }
                        }
                    }
                }
            }
            assert forall|i: int|
                0 <= i < table.cells.len() && (#[trigger] table.cells[i]).live == 1 implies {
                &&& key_content(w, d.key_kind, table.cells[i].key) == key_content(
                    m,
                    d.key_kind,
                    table.cells[i].key,
                )
                &&& key_content(m, d.key_kind, table.cells[i].key) is Some
                &&& key_content(m, d.key_kind, table.cells[i].key) != Some(content)
                &&& ready.key_apart(w, table.cells[i].key)
            } by {
                assert(table.cells[i].key == kept[i].key);
                let j = choose|j: int| 0 <= j < n && old_table.cells[j] == kept[i];
                assert(kept[i].live == 1);
                assert(old_table.cells[j].live == 1);
                assert(key_content(m, d.key_kind, table.cells[i].key) is Some);
            }
        },
    }
}

/// Where there is no room for an entry, that is reported.
proof fn lemma_no_room_is_reported(
    before: ExecutionContext,
    grown: ExecutionContext,
    d: AsterDictionary,
    ready: AsterDictionary,
    room: bool,
)
    requires
        grown.prepare_outcome(before, d, ready, room),
        !room,
    ensures
        grown.error_text() is Some,
{
}

/// Putting a key that is not there, without a report, puts one entry behind the
/// others.
pub proof fn lemma_new_entry(
    before: ExecutionContext,
    after: ExecutionContext,
    d: AsterDictionary,
    longer: AsterDictionary,
    types: DictionaryTypes,
    key: Option<&[u8]>,
    value: &[u8],
    replace: bool,
    result: i8,
)
    requires
        d.holds_in(before),
        d.types() == types,
        before.error_text() is None,
        after.error_text() is None,
        value@.len() >= types.value_size,
        key matches Some(k) && k@.len() >= types.key_size,
        key_report(before.mem(), types.key_kind, key, types.key_size, "Add"@) is None,
        key_report(before.mem(), types.key_kind, key, types.key_size, "Set"@) is None,
        !exists|p: int| entry_of(before, d, types, key, p),
        d.bucket_capacity > 0 ==> d.key_apart(
            before.mem(),
            key->0@.take(types.key_size as int),
        ),
        after.put_outcome(before, d, longer, types, key, Some(value), replace, result),
    ensures
        result == if replace {
            0i8
        } else {
            1i8
        },
        longer.types() == types,
        longer.holds_in(after),
        longer.entries_in(after) == d.entries_in(before).push(
            (key->0@.take(types.key_size as int), value@.take(types.value_size as int)),
        ),
        after.value_of(longer, types, key) == Some(value@.take(types.value_size as int)),
        keys_mean_the_same(before, after, longer),
{
    let m = before.mem();
    let slot = key->0@.take(types.key_size as int);
    let bytes = value@.take(types.value_size as int);
    let content = before.sought(types, key);
    let hash = before.key_hash(content);
    let identity = before.configuration().identity;
    let k0 = identity.dictionary_hash_k0;
    let k1 = identity.dictionary_hash_k1;
    law_search_finds_exactly_the_entry(before, d, types, key, "Add"@);
    law_search_finds_exactly_the_entry(before, d, types, key, "Set"@);
    assert(before.lookup(d, types, key) is Missing);
    let (grown, ready, room) = choose|
        grown: ExecutionContext,
        ready: AsterDictionary,
        room: bool,
    |
        {
            &&& #[trigger] grown.prepare_outcome(before, d, ready, room)
            &&& !room ==> result == 0 && longer == d && after == grown
            &&& room ==> {
                &&& result == if replace {
                    0i8
                } else {
                    1i8
                }
                &&& longer == ready.after_insert()
                &&& after.same_but_bytes(grown)
                &&& after.mem() == ready.entry_written(grown.mem(), hash, slot, bytes)
                &&& longer.active()
                &&& longer.stored_in(after.mem())
                &&& longer.table(after.mem()) == ready.table(grown.mem()).inserted(
                    hash,
                    slot,
                    bytes,
                )
            }
        };
    if !room {
        lemma_no_room_is_reported(before, grown, d, ready, room);
    }
    lemma_ready_table(before, grown, d, ready, types, key);
    let g = grown.mem();
    let w = after.mem();
    let table = ready.table(g);
    let n = table.cells.len() as int;
    let changed = table.inserted(hash, slot, bytes);
    lemma_inserted(table, g, d.key_kind, k0, k1, content, slot, bytes);
    assert forall|k: int| #[trigger] longer.covers(k) == ready.covers(k) by {}
    assert forall|i: int|
        0 <= i < n + 1 && (#[trigger] changed.cells[i]).live == 1 implies longer.key_apart(
        g,
        changed.cells[i].key,
    ) by {
        if i < n {
            assert(changed.cells[i] == table.cells[i]);
            assert(ready.key_apart(g, table.cells[i].key));
        } else {
            assert(ready.key_apart(g, slot));
        }
    }
    lemma_insert_covered(ready, g, hash, slot, bytes);
    lemma_keyed_kept(changed, g, w, longer, k0, k1);
    assert(changed.cells[n].live == 1);
    assert(key_content(w, d.key_kind, slot) == Some(content));
    assert(longer.holds_in(after));
    law_search_finds_exactly_the_entry(after, longer, types, key, "Add"@);
    let entries = longer.entries_in(after);
    assert(entries[entries.len() - 1] == (slot, bytes));
    assert(entry_of(after, longer, types, key, entries.len() - 1));
    assert forall|i: int|
        0 <= i < changed.cells.len() && (#[trigger] changed.cells[i]).live == 1 implies key_content(
        w,
        d.key_kind,
        changed.cells[i].key,
    ) == key_content(m, d.key_kind, changed.cells[i].key) by {
        if i < n {
            assert(changed.cells[i] == table.cells[i]);
        }
    }
    lemma_entries_mean_the_same(changed, m, w, d.key_kind);
}

/// Adding a key that is not there, when there is room, puts one entry behind
/// the others: the dictionary stays valid, the other entries stay where they
/// are, and the value is found under the key.
pub proof fn law_added_entry_is_found(
    before: ExecutionContext,
    after: ExecutionContext,
    d: AsterDictionary,
    longer: AsterDictionary,
    types: DictionaryTypes,
    key: Option<&[u8]>,
    value: &[u8],
)
    requires
        d.holds_in(before),
        d.types() == types,
        value@.len() >= types.value_size,
        key matches Some(k) && k@.len() >= types.key_size,
        d.bucket_capacity > 0 ==> d.key_apart(
            before.mem(),
            key->0@.take(types.key_size as int),
        ),
        after.put_outcome(before, d, longer, types, key, Some(value), false, 1),
    ensures
        longer.holds_in(after),
        longer.entries_in(after) == d.entries_in(before).push(
            (key->0@.take(types.key_size as int), value@.take(types.value_size as int)),
        ),
        after.value_of(longer, types, key) == Some(value@.take(types.value_size as int)),
{
    law_search_finds_exactly_the_entry(before, d, types, key, "Add"@);
    lemma_success_is_not_reported(before, after, d, longer, types, key, value, false, 1);
    lemma_new_entry(before, after, d, longer, types, key, value, false, 1);
}

/// A new entry that was put without being refused comes without a report.
proof fn lemma_success_is_not_reported(
    before: ExecutionContext,
    after: ExecutionContext,
    d: AsterDictionary,
    longer: AsterDictionary,
    types: DictionaryTypes,
    key: Option<&[u8]>,
    value: &[u8],
    replace: bool,
    result: i8,
)
    requires
        before.error_text() is None,
        after.put_outcome(before, d, longer, types, key, Some(value), replace, result),
        longer != d,
    ensures
        after.error_text() is None,
{
}

/// Setting the value of a key that is not there puts one entry behind the others,
/// unless something is reported: the dictionary stays valid, the other entries
/// stay where they are, and the value is found under the key.
pub proof fn law_set_appends_a_new_key(
    before: ExecutionContext,
    after: ExecutionContext,
    d: AsterDictionary,
    longer: AsterDictionary,
    types: DictionaryTypes,
    key: Option<&[u8]>,
    value: &[u8],
    result: i8,
)
    requires
        d.holds_in(before),
        d.types() == types,
        before.error_text() is None,
        after.error_text() is None,
        value@.len() >= types.value_size,
        key matches Some(k) && k@.len() >= types.key_size,
        key_report(before.mem(), types.key_kind, key, types.key_size, "Set"@) is None,
        !exists|p: int| entry_of(before, d, types, key, p),
        d.bucket_capacity > 0 ==> d.key_apart(
            before.mem(),
            key->0@.take(types.key_size as int),
        ),
        after.put_outcome(before, d, longer, types, key, Some(value), true, result),
    ensures
        result == 0,
        longer.holds_in(after),
        longer.entries_in(after) == d.entries_in(before).push(
            (key->0@.take(types.key_size as int), value@.take(types.value_size as int)),
        ),
        after.value_of(longer, types, key) == Some(value@.take(types.value_size as int)),
{
    lemma_new_entry(before, after, d, longer, types, key, value, true, result);
}

/// Writing an entry leaves memory outside the buffers as it is.
proof fn lemma_insert_covered(
    d: AsterDictionary,
    m: Map<int, u8>,
    hash: u64,
    key: Seq<u8>,
    value: Seq<u8>,
)
    requires
        d.active(),
        d.entry_count < d.entry_capacity,
        key.len() == d.key_size,
        value.len() == d.value_size,
    ensures
        forall|k: int| #[trigger] m.contains_key(k) && !d.covers(k) ==> d.entry_written(
            m,
            hash,
            key,
            value,
        ).contains_key(k) && d.entry_written(m, hash, key, value)[k] == m[k],
{
    vstd::bytes::lemma_auto_spec_u32_to_from_le_bytes();
    vstd::bytes::lemma_auto_spec_u64_to_from_le_bytes();
    lemma_entry_layout(d.key_size, d.key_align, d.value_size, d.value_align);
    lemma_bucket_of(hash, d.bucket_capacity as int);
    let layout = d.layout()->0;
    let a = d.entry_address(d.entry_count as int);
    let b = bucket_of(hash, d.bucket_capacity as int);
    let first = crate::dictionary::entry_head_bytes(hash, d.table(m).heads[b]);
    let m1 = overwritten(m, a, first);
    let m2 = overwritten(m1, a + layout.key_offset, key);
    let m3 = overwritten(m2, a + layout.value_offset, value);
    lemma_entry_covered(d, d.entry_count as int);
    lemma_write_covered(d, m, a, first);
    lemma_write_covered(d, m1, a + layout.key_offset, key);
    lemma_write_covered(d, m2, a + layout.value_offset, value);
    let number = vstd::bytes::spec_u32_to_le_bytes(d.entry_count as u32);
    lemma_write_covered(d, m3, d.bucket_address(b), number);
    let end = d.entry_written(m, hash, key, value);
    assert(end == overwritten(m3, d.bucket_address(b), number));
    assert forall|k: int| #[trigger] m.contains_key(k) && !d.covers(k) implies end.contains_key(k)
        && end[k] == m[k] by {
        assert(m1.contains_key(k) && m1[k] == m[k]);
        assert(m2.contains_key(k) && m2[k] == m[k]);
        assert(m3.contains_key(k) && m3[k] == m[k]);
    }
}

/// The order of the entries does not depend on the seed: dictionaries with the
/// same entries in contexts of different seeds have the same entries after the
/// same addition.
pub proof fn law_order_does_not_depend_on_the_seed(
    before: ExecutionContext,
    after: ExecutionContext,
    d: AsterDictionary,
    longer: AsterDictionary,
    other_before: ExecutionContext,
    other_after: ExecutionContext,
    e: AsterDictionary,
    other_longer: AsterDictionary,
    types: DictionaryTypes,
    key: Option<&[u8]>,
    value: &[u8],
)
    requires
        d.holds_in(before),
        e.holds_in(other_before),
        d.types() == types,
        e.types() == types,
        d.entries_in(before) == e.entries_in(other_before),
        value@.len() >= types.value_size,
        key matches Some(k) && k@.len() >= types.key_size,
        d.bucket_capacity > 0 ==> d.key_apart(before.mem(), key->0@.take(types.key_size as int)),
        e.bucket_capacity > 0 ==> e.key_apart(
            other_before.mem(),
            key->0@.take(types.key_size as int),
        ),
        after.put_outcome(before, d, longer, types, key, Some(value), false, 1),
        other_after.put_outcome(
            other_before,
            e,
            other_longer,
            types,
            key,
            Some(value),
            false,
            1,
        ),
    ensures
        longer.entries_in(after) == other_longer.entries_in(other_after),
{
    law_added_entry_is_found(before, after, d, longer, types, key, value);
    law_added_entry_is_found(other_before, other_after, e, other_longer, types, key, value);
}

/// A snapshot of a valid dictionary holds its entries in insertion order.
pub proof fn law_snapshot_lists_the_entries(
    before: ExecutionContext,
    after: ExecutionContext,
    d: AsterDictionary,
    types: DictionaryTypes,
    entry_size: u32,
    key_offset: u32,
    value_offset: u32,
    temporary: bool,
    array: AsterArray,
)
    requires
        d.holds_in(before),
        after.snapshot_outcome(
            before,
            Some(d),
            types,
            entry_size,
            key_offset,
            value_offset,
            temporary,
            Some(array),
        ),
    ensures
        array.length == d.entries_in(before).len(),
        crate::dictionary::snapshot_holds(
            bytes_at(after.mem(), array.data as int, (d.length * entry_size) as nat),
            d.entries_in(before),
            entry_size,
            key_offset,
            value_offset,
        ),
{
}

} // verus!

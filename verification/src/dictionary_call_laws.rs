//! What dictionary calls are for: a dictionary is a list of keys and values, in the order
//! in which the keys came, and a key that is a text is that whole text.

use vstd::bytes::{
    lemma_auto_spec_u32_to_from_le_bytes, lemma_auto_spec_u64_to_from_le_bytes,
    spec_u32_to_le_bytes, spec_u64_from_le_bytes, spec_u64_to_le_bytes,
};
use vstd::prelude::*;
use vstd::utf8::*;

use crate::arena::valid_align;
use crate::array::AsterArray;
use crate::context::ExecutionContext;
use crate::dictionary::{
    entry_layout, lemma_cell_bounds, lemma_entry_layout, option_written, snapshot_element,
    AsterDictionary,
};
use crate::dictionary_abi::{
    aster_rt_dictionary_add, aster_rt_dictionary_contains_key, aster_rt_dictionary_entries,
    aster_rt_dictionary_length, aster_rt_dictionary_new, aster_rt_dictionary_new_temporary,
    aster_rt_dictionary_remove, aster_rt_dictionary_set, aster_rt_dictionary_try_get,
};
use crate::dictionary_history::{
    has_key, law_calls_follow_from_the_pairs, pair_of, place_of, DictionaryAct, DictionaryTurn,
};
use crate::dictionary_laws::{
    entry_of, law_new_dictionary_is_empty, law_search_finds_exactly_the_entry,
    lemma_cell_of_entry,
};
use crate::dictionary_table::{key_content, DictionaryKeyKind};
use crate::hash_laws::{is_run, lemma_hash_is_run};
use crate::list::ListRegion;
use crate::meaning::{holds, keeps, lemma_says_bytes, lemma_says_on, only_looks, refuses, says_bytes};
use crate::memory::{bytes_at, has_range, preserved};
use crate::number_laws::{is_place, tells};
use crate::siphash::SipState;
use crate::string_store::string_at;

verus! {

/// The number under which calls name a kind of keys.
pub open spec fn number_of(kind: DictionaryKeyKind) -> i32 {
    match kind {
        DictionaryKeyKind::Bool => 1,
        DictionaryKeyKind::Char => 2,
        DictionaryKeyKind::SByte => 3,
        DictionaryKeyKind::Byte => 4,
        DictionaryKeyKind::Short => 5,
        DictionaryKeyKind::UShort => 6,
        DictionaryKeyKind::Int => 7,
        DictionaryKeyKind::UInt => 8,
        DictionaryKeyKind::Long => 9,
        DictionaryKeyKind::ULong => 10,
        DictionaryKeyKind::String => 11,
    }
}

/// How many bytes the slot of a key takes.
pub open spec fn slot_size(number: i32) -> int {
    if number == 1 || number == 3 || number == 4 {
        1
    } else if number == 5 || number == 6 {
        2
    } else if number == 2 || number == 7 || number == 8 {
        4
    } else {
        8
    }
}

/// What a call says of the types of a dictionary.
pub struct TypeArguments {
    pub key_kind: i32,
    pub key_size: i32,
    pub key_align: i32,
    pub key_type_key: i64,
    pub value_size: i32,
    pub value_align: i32,
    pub value_type_key: i64,
}

impl TypeArguments {
    /// A call that names the types of a dictionary as they are.
    pub open spec fn describe(self, d: AsterDictionary) -> bool {
        &&& self.key_kind == number_of(d.key_kind)
        &&& self.key_size == d.key_size
        &&& self.key_align == d.key_align
        &&& self.key_type_key as u64 == d.key_type_key
        &&& self.value_size == d.value_size
        &&& self.value_align == d.value_align
        &&& self.value_type_key as u64 == d.value_type_key
    }
}

/// What the slot of a key stands for: its own bytes, or where keys are texts, all the
/// bytes of the text that it refers to.
pub open spec fn stands_for(m: Map<int, u8>, number: i32, slot: Seq<u8>, key: Seq<u8>) -> bool {
    if number == 11 {
        exists|address: u64|
            {
                &&& #[trigger] says_bytes(m, address, key)
                &&& slot == spec_u64_to_le_bytes(address)
                &&& valid_utf8(key)
                &&& key.len() <= usize::MAX
                &&& address + 8 <= u64::MAX
            }
    } else {
        slot == key
    }
}

/// A dictionary has these keys and values, in this order, each key once.
pub open spec fn has_pairs(
    c: ExecutionContext,
    d: AsterDictionary,
    pairs: Seq<(Seq<u8>, Seq<u8>)>,
) -> bool {
    let entries = d.entries_in(c);
    &&& d.holds_in(c)
    &&& entries.len() == pairs.len()
    &&& forall|p: int|
        0 <= p < pairs.len() ==> {
            &&& stands_for(c.mem(), number_of(d.key_kind), entries[p].0, (#[trigger] pairs[p]).0)
            &&& entries[p].1 == pairs[p].1
        }
    &&& forall|p: int, q: int|
        0 <= p < q < pairs.len() ==> (#[trigger] pairs[p]).0 != (#[trigger] pairs[q]).0
}

/// Some pair has this key.
pub open spec fn is_key(pairs: Seq<(Seq<u8>, Seq<u8>)>, key: Seq<u8>) -> bool {
    exists|p: int| 0 <= p < pairs.len() && (#[trigger] pairs[p]).0 == key
}

/// The slot of a key that is asked for stands for this key, and the text that it refers
/// to, if it is one, does not lie in the buffers of the dictionary.
pub open spec fn asks_for(
    c: ExecutionContext,
    d: AsterDictionary,
    slot: Option<&[u8]>,
    key: Seq<u8>,
) -> bool {
    &&& slot matches Some(s) && s@.len() >= d.key_size && stands_for(
        c.mem(),
        number_of(d.key_kind),
        s@.take(d.key_size as int),
        key,
    )
    &&& number_of(d.key_kind) == 11 ==> {
        let address = spec_u64_from_le_bytes(slot->0@.take(8));
        forall|k: int| address <= k < address + 8 + key.len() ==> !#[trigger] d.covers(k)
    }
}

/// A slot is read as the key that it stands for.
proof fn lemma_stands_for(m: Map<int, u8>, kind: DictionaryKeyKind, slot: Seq<u8>, key: Seq<u8>)
    requires
        slot.len() == slot_size(number_of(kind)),
    ensures
        stands_for(m, number_of(kind), slot, key) <==> key_content(m, kind, slot) == Some(key),
{
    if kind == DictionaryKeyKind::String {
        lemma_auto_spec_u64_to_from_le_bytes();
        let address = spec_u64_from_le_bytes(slot);
        assert(spec_u64_to_le_bytes(address) == slot);
        if stands_for(m, 11, slot, key) {
            let other = choose|other: u64|
                {
                    &&& #[trigger] says_bytes(m, other, key)
                    &&& slot == spec_u64_to_le_bytes(other)
                    &&& valid_utf8(key)
                    &&& key.len() <= usize::MAX
                    &&& other + 8 <= u64::MAX
                };
            assert(other == address);
            lemma_says_bytes(m, address, key);
        }
        if key_content(m, kind, slot) == Some(key) {
            assert(string_at(m, address) == Some(key));
            lemma_says_bytes(m, address, key);
            assert(says_bytes(m, address, key));
        }
    }
}

/// A valid dictionary has the pairs that are read from it, and no others.
proof fn lemma_has_pairs(c: ExecutionContext, d: AsterDictionary)
    requires
        d.holds_in(c),
    ensures
        has_pairs(c, d, d.pairs_in(c)),
        forall|pairs: Seq<(Seq<u8>, Seq<u8>)>|
            #[trigger] has_pairs(c, d, pairs) ==> pairs == d.pairs_in(c),
{
    let m = c.mem();
    let entries = d.entries_in(c);
    let pairs = d.pairs_in(c);
    let table = d.table(m);
    let n = table.cells.len() as int;
    assert(d.bucket_capacity == 0 ==> n == 0);
    lemma_slots(c, d);
    assert forall|p: int| 0 <= p < pairs.len() implies {
        &&& stands_for(m, number_of(d.key_kind), entries[p].0, (#[trigger] pairs[p]).0)
        &&& entries[p].1 == pairs[p].1
    } by {
        assert(key_content(m, d.key_kind, entries[p].0) is Some);
        lemma_stands_for(m, d.key_kind, entries[p].0, pairs[p].0);
    }
    assert forall|p: int, q: int| 0 <= p < q < pairs.len() implies (#[trigger] pairs[p]).0 != (
    #[trigger] pairs[q]).0 by {
        let i = lemma_cell_of_entry(table.cells, p, n);
        let j = lemma_cell_of_entry(table.cells, q, n);
        assert(table.cells[i].live == 1 && table.cells[j].live == 1);
        assert(key_content(m, d.key_kind, entries[p].0) is Some);
        assert(key_content(m, d.key_kind, entries[q].0) is Some);
        assert(i != j);
        if i < j {
            assert(key_content(m, d.key_kind, table.cells[i].key) != key_content(
                m,
                d.key_kind,
                table.cells[j].key,
            ));
        } else {
            assert(key_content(m, d.key_kind, table.cells[j].key) != key_content(
                m,
                d.key_kind,
                table.cells[i].key,
            ));
        }
    }
    assert forall|other: Seq<(Seq<u8>, Seq<u8>)>| #[trigger] has_pairs(c, d, other) implies other
        == pairs by {
        assert forall|p: int| 0 <= p < pairs.len() implies other[p] == pairs[p] by {
            assert(key_content(m, d.key_kind, entries[p].0) is Some);
            assert(stands_for(m, number_of(d.key_kind), entries[p].0, other[p].0));
            lemma_stands_for(m, d.key_kind, entries[p].0, other[p].0);
        }
        assert(other =~= pairs);
    }
}

/// A key that is asked for can be read, and is the key that is meant.
proof fn lemma_asks_for(
    c: ExecutionContext,
    d: AsterDictionary,
    slot: Option<&[u8]>,
    key: Seq<u8>,
    operation: Seq<char>,
)
    requires
        d.holds_in(c),
        asks_for(c, d, slot, key),
    ensures
        crate::dictionary::key_report(c.mem(), d.key_kind, slot, d.key_size, operation) is None,
        c.sought(d.types(), slot) == key,
        d.key_apart(c.mem(), slot->0@.take(d.key_size as int)),
{
    let s = slot->0@.take(d.key_size as int);
    assert(s.len() == slot_size(number_of(d.key_kind)));
    lemma_stands_for(c.mem(), d.key_kind, s, key);
}

/// The pair of a key is where its key is.
proof fn lemma_place(pairs: Seq<(Seq<u8>, Seq<u8>)>, key: Seq<u8>)
    ensures
        has_key(pairs, key) <==> is_key(pairs, key),
        has_key(pairs, key) ==> pair_of(pairs, key, place_of(pairs, key)),
{
    if is_key(pairs, key) {
        let p = choose|p: int| 0 <= p < pairs.len() && (#[trigger] pairs[p]).0 == key;
        assert(pair_of(pairs, key, p));
    }
    if has_key(pairs, key) {
        let p = place_of(pairs, key);
        assert(pair_of(pairs, key, p));
        assert(pairs[p].0 == key);
    }
}

/// A search for a key that is asked for comes to an end.
proof fn lemma_is_sought(
    c: ExecutionContext,
    d: AsterDictionary,
    slot: Option<&[u8]>,
    key: Seq<u8>,
    operation: Seq<char>,
)
    requires
        d.holds_in(c),
        asks_for(c, d, slot, key),
    ensures
        c.lookup_report(Some(d), d.types(), slot, operation) is None,
        c.search_for_report(Some(d), d.types(), slot, operation) is None,
        c.lookup(d, d.types(), slot) is Missing <==> !is_key(d.pairs_in(c), key),
        c.lookup(d, d.types(), slot) is Missing || c.lookup(d, d.types(), slot) is Found,
{
    lemma_asks_for(c, d, slot, key, operation);
    law_search_finds_exactly_the_entry(c, d, d.types(), slot, operation);
    lemma_has_pairs(c, d);
    let pairs = d.pairs_in(c);
    let types = d.types();
    let entries = d.entries_in(c);
    if is_key(pairs, key) {
        let p = choose|p: int| 0 <= p < pairs.len() && (#[trigger] pairs[p]).0 == key;
        lemma_slots(c, d);
        assert(key_content(c.mem(), d.key_kind, entries[p].0) is Some);
        assert(entry_of(c, d, types, slot, p));
    }
    if exists|p: int| entry_of(c, d, types, slot, p) {
        let p = choose|p: int| entry_of(c, d, types, slot, p);
        assert(pairs[p].0 == key);
    }
}

/// The slots of a valid dictionary can be read.
proof fn lemma_slots(c: ExecutionContext, d: AsterDictionary)
    requires
        d.holds_in(c),
    ensures
        forall|p: int|
            0 <= p < d.entries_in(c).len() ==> {
                &&& (#[trigger] d.entries_in(c)[p]).0.len() == slot_size(number_of(d.key_kind))
                &&& key_content(c.mem(), d.key_kind, d.entries_in(c)[p].0) is Some
                &&& d.entries_in(c)[p].1.len() == d.value_size
            },
{
    let m = c.mem();
    let table = d.table(m);
    let n = table.cells.len() as int;
    assert(d.bucket_capacity == 0 ==> n == 0);
    assert forall|p: int| 0 <= p < d.entries_in(c).len() implies {
        &&& (#[trigger] d.entries_in(c)[p]).0.len() == slot_size(number_of(d.key_kind))
        &&& key_content(c.mem(), d.key_kind, d.entries_in(c)[p].0) is Some
        &&& d.entries_in(c)[p].1.len() == d.value_size
    } by {
        let i = lemma_cell_of_entry(table.cells, p, n);
        assert(table.cells[i].live == 1);
        lemma_entry_layout(d.key_size, d.key_align, d.value_size, d.value_align);
        assert(table.cells[i] == d.cell(m, i));
    }
}

/// A dictionary has room for one more key in the buffers that it has.
pub open spec fn has_room(d: AsterDictionary) -> bool {
    &&& d.length < 100_000
    &&& d.entry_count < d.entry_capacity
    &&& 4 * (d.length + 1) <= 3 * d.bucket_capacity
    &&& d.bucket_capacity <= 0x1000_0000
}

/// Adding puts a new key behind the others. A key that is there, because some key of the
/// dictionary is the same from the first byte to the last, is not added again.
pub proof fn law_add(
    context: Option<&mut ExecutionContext>,
    dictionary: Option<&mut AsterDictionary>,
    types: TypeArguments,
    slot: Option<&[u8]>,
    value: Option<&[u8]>,
    pairs: Seq<(Seq<u8>, Seq<u8>)>,
    key: Seq<u8>,
    result: i8,
)
    requires
        context matches Some(c) && c.wf() && c.error_text() is None,
        dictionary matches Some(d) && types.describe(*d),
        has_pairs(*context->0, *dictionary->0, pairs),
        asks_for(*context->0, *dictionary->0, slot, key),
        value matches Some(v) && v@.len() >= types.value_size,
        call_ensures(
            aster_rt_dictionary_add,
            (
                context,
                dictionary,
                types.key_kind,
                types.key_size,
                types.key_align,
                types.key_type_key,
                types.value_size,
                types.value_align,
                types.value_type_key,
                slot,
                value,
            ),
            result,
        ),
    ensures
        is_key(pairs, key) ==> {
            &&& result == 0
            &&& only_looks(*context->0, *final(context->0))
            &&& *final(dictionary->0) == *dictionary->0
            &&& has_pairs(*final(context->0), *final(dictionary->0), pairs)
        },
        !is_key(pairs, key) && final(context->0).error_text() is None ==> {
            &&& result == 1
            &&& types.describe(*final(dictionary->0))
            &&& has_pairs(
                *final(context->0),
                *final(dictionary->0),
                pairs.push((key, value->0@.take(types.value_size as int))),
            )
        },
        !is_key(pairs, key) && pairs.len() >= 100_000 ==> refuses(*context->0, *final(context->0)),
        has_room(*dictionary->0) ==> final(context->0).error_text() is None,
        final(context->0).error_text() is Some ==> {
            &&& result == 0
            &&& *final(dictionary->0) == *dictionary->0
            &&& keeps(context->0.mem(), final(context->0).mem())
        },
{
    let before = *context->0;
    let after = *final(context->0);
    let d = *dictionary->0;
    lemma_has_pairs(before, d);
    lemma_asks_for(before, d, slot, key, "Add"@);
    lemma_is_sought(before, d, slot, key, "Add"@);
    lemma_place(pairs, key);
    if after.error_text() is None {
        let turn = DictionaryTurn {
            act: DictionaryAct::Add,
            before,
            after,
            header: d,
            next: *final(dictionary->0),
            key: slot,
            value,
            result: result == 1,
            got: None,
        };
        assert(result == turn.flag());
        law_calls_follow_from_the_pairs(turn, d.types());
        lemma_has_pairs(after, turn.next);
    }
}

/// A dictionary that lives in the scope that is open takes more room from the arena of
/// that scope. One that lives longer takes it from the arena that outlives all scopes.
pub proof fn law_dictionary_grows_where_it_lives(
    context: Option<&mut ExecutionContext>,
    dictionary: Option<&mut AsterDictionary>,
    types: TypeArguments,
    slot: Option<&[u8]>,
    value: Option<&[u8]>,
    pairs: Seq<(Seq<u8>, Seq<u8>)>,
    key: Seq<u8>,
    result: i8,
)
    requires
        context matches Some(c) && c.wf() && c.error_text() is None,
        dictionary matches Some(d) && types.describe(*d),
        has_pairs(*context->0, *dictionary->0, pairs),
        asks_for(*context->0, *dictionary->0, slot, key),
        value matches Some(v) && v@.len() >= types.value_size,
        call_ensures(
            aster_rt_dictionary_add,
            (
                context,
                dictionary,
                types.key_kind,
                types.key_size,
                types.key_align,
                types.key_type_key,
                types.value_size,
                types.value_align,
                types.value_type_key,
                slot,
                value,
            ),
            result,
        ),
        result == 1,
    ensures
        ({
            let of_the_scope = dictionary->0.region == ListRegion::Temporary
                && context->0.scopes().len() == dictionary->0.birth_scope_depth;
            &&& of_the_scope ==> final(context->0).persistent().shape()
                == context->0.persistent().shape()
            &&& !of_the_scope ==> final(context->0).temporary().shape()
                == context->0.temporary().shape()
        }),
{
    let before = *context->0;
    let d = *dictionary->0;
    lemma_has_pairs(before, d);
    lemma_is_sought(before, d, slot, key, "Add"@);
}

/// Setting gives a key that is there the value, where it is, and puts a new key behind
/// the others.
pub proof fn law_set(
    context: Option<&mut ExecutionContext>,
    dictionary: Option<&mut AsterDictionary>,
    types: TypeArguments,
    slot: Option<&[u8]>,
    value: Option<&[u8]>,
    pairs: Seq<(Seq<u8>, Seq<u8>)>,
    key: Seq<u8>,
    result: i8,
)
    requires
        context matches Some(c) && c.wf() && c.error_text() is None,
        dictionary matches Some(d) && types.describe(*d),
        has_pairs(*context->0, *dictionary->0, pairs),
        asks_for(*context->0, *dictionary->0, slot, key),
        value matches Some(v) && v@.len() >= types.value_size,
        call_ensures(
            aster_rt_dictionary_set,
            (
                context,
                dictionary,
                types.key_kind,
                types.key_size,
                types.key_align,
                types.key_type_key,
                types.value_size,
                types.value_align,
                types.value_type_key,
                slot,
                value,
            ),
            result,
        ),
    ensures
        is_key(pairs, key) ==> final(context->0).error_text() is None && result == 1,
        forall|p: int|
            0 <= p < pairs.len() && (#[trigger] pairs[p]).0 == key ==> has_pairs(
                *final(context->0),
                *final(dictionary->0),
                pairs.update(p, (key, value->0@.take(types.value_size as int))),
            ),
        !is_key(pairs, key) && final(context->0).error_text() is None ==> result == 0 && has_pairs(
            *final(context->0),
            *final(dictionary->0),
            pairs.push((key, value->0@.take(types.value_size as int))),
        ),
        final(context->0).error_text() is None ==> types.describe(*final(dictionary->0)),
        !is_key(pairs, key) && pairs.len() >= 100_000 ==> refuses(*context->0, *final(context->0)),
        has_room(*dictionary->0) ==> final(context->0).error_text() is None,
        final(context->0).error_text() is Some ==> {
            &&& result == 0
            &&& *final(dictionary->0) == *dictionary->0
            &&& keeps(context->0.mem(), final(context->0).mem())
        },
{
    let before = *context->0;
    let after = *final(context->0);
    let d = *dictionary->0;
    lemma_has_pairs(before, d);
    lemma_asks_for(before, d, slot, key, "Set"@);
    lemma_is_sought(before, d, slot, key, "Set"@);
    lemma_place(pairs, key);
    assert(is_key(pairs, key) ==> after.error_text() is None);
    if after.error_text() is None {
        let turn = DictionaryTurn {
            act: DictionaryAct::Assign,
            before,
            after,
            header: d,
            next: *final(dictionary->0),
            key: slot,
            value,
            result: result == 1,
            got: None,
        };
        assert(result == turn.flag());
        law_calls_follow_from_the_pairs(turn, d.types());
        lemma_has_pairs(after, turn.next);
    }
    assert forall|p: int| 0 <= p < pairs.len() && (#[trigger] pairs[p]).0 == key implies has_pairs(
        *final(context->0),
        *final(dictionary->0),
        pairs.update(p, (key, value->0@.take(types.value_size as int))),
    ) by {
        assert(is_key(pairs, key));
        let q = place_of(pairs, key);
        assert(pairs[q].0 == key);
        assert(p == q);
    }
}

/// Removing takes the pair of a key out, and leaves the others in their order.
pub proof fn law_remove(
    context: Option<&mut ExecutionContext>,
    dictionary: Option<&mut AsterDictionary>,
    types: TypeArguments,
    slot: Option<&[u8]>,
    pairs: Seq<(Seq<u8>, Seq<u8>)>,
    key: Seq<u8>,
    result: i8,
)
    requires
        context matches Some(c) && c.wf() && c.error_text() is None,
        dictionary matches Some(d) && types.describe(*d),
        has_pairs(*context->0, *dictionary->0, pairs),
        asks_for(*context->0, *dictionary->0, slot, key),
        call_ensures(
            aster_rt_dictionary_remove,
            (
                context,
                dictionary,
                types.key_kind,
                types.key_size,
                types.key_align,
                types.key_type_key,
                types.value_size,
                types.value_align,
                types.value_type_key,
                slot,
            ),
            result,
        ),
    ensures
        final(context->0).error_text() is None,
        types.describe(*final(dictionary->0)),
        is_key(pairs, key) ==> result == 1,
        forall|p: int|
            0 <= p < pairs.len() && (#[trigger] pairs[p]).0 == key ==> has_pairs(
                *final(context->0),
                *final(dictionary->0),
                pairs.remove(p),
            ),
        !is_key(pairs, key) ==> {
            &&& result == 0
            &&& only_looks(*context->0, *final(context->0))
            &&& *final(dictionary->0) == *dictionary->0
            &&& has_pairs(*final(context->0), *final(dictionary->0), pairs)
        },
{
    let before = *context->0;
    let after = *final(context->0);
    let d = *dictionary->0;
    lemma_has_pairs(before, d);
    lemma_asks_for(before, d, slot, key, "Remove"@);
    lemma_is_sought(before, d, slot, key, "Remove"@);
    lemma_place(pairs, key);
    let turn = DictionaryTurn {
        act: DictionaryAct::Remove,
        before,
        after,
        header: d,
        next: *final(dictionary->0),
        key: slot,
        value: None,
        result: result == 1,
        got: None,
    };
    assert(result == turn.flag());
    law_calls_follow_from_the_pairs(turn, d.types());
    lemma_has_pairs(after, turn.next);
    assert forall|p: int| 0 <= p < pairs.len() && (#[trigger] pairs[p]).0 == key implies has_pairs(
        *final(context->0),
        *final(dictionary->0),
        pairs.remove(p),
    ) by {
        assert(is_key(pairs, key));
        let q = place_of(pairs, key);
        assert(pairs[q].0 == key);
        assert(p == q);
    }
}

/// A dictionary tells whether it has a key, and nothing changes.
pub proof fn law_contains_key(
    context: Option<&mut ExecutionContext>,
    dictionary: Option<&mut AsterDictionary>,
    types: TypeArguments,
    slot: Option<&[u8]>,
    pairs: Seq<(Seq<u8>, Seq<u8>)>,
    key: Seq<u8>,
    result: i8,
)
    requires
        context matches Some(c) && c.wf() && c.error_text() is None,
        dictionary matches Some(d) && types.describe(*d),
        has_pairs(*context->0, *dictionary->0, pairs),
        asks_for(*context->0, *dictionary->0, slot, key),
        call_ensures(
            aster_rt_dictionary_contains_key,
            (
                context,
                dictionary,
                types.key_kind,
                types.key_size,
                types.key_align,
                types.key_type_key,
                types.value_size,
                types.value_align,
                types.value_type_key,
                slot,
            ),
            result,
        ),
    ensures
        only_looks(*context->0, *final(context->0)),
        *final(dictionary->0) == *dictionary->0,
        is_key(pairs, key) ==> result == 1,
        !is_key(pairs, key) ==> result == 0,
{
    let before = *context->0;
    let d = *dictionary->0;
    lemma_has_pairs(before, d);
    lemma_is_sought(before, d, slot, key, "ContainsKey"@);
}

/// A dictionary gives the value of a key, or tells that there is none, and nothing
/// changes.
pub proof fn law_try_get(
    context: Option<&mut ExecutionContext>,
    dictionary: Option<&AsterDictionary>,
    types: TypeArguments,
    slot: Option<&[u8]>,
    destination: Option<&mut Vec<u8>>,
    total_size: i32,
    some_tag: i32,
    none_tag: i32,
    payload_offset: i32,
    pairs: Seq<(Seq<u8>, Seq<u8>)>,
    key: Seq<u8>,
)
    requires
        context matches Some(c) && c.wf() && c.error_text() is None,
        dictionary matches Some(d) && types.describe(*d),
        has_pairs(*context->0, *dictionary->0, pairs),
        asks_for(*context->0, *dictionary->0, slot, key),
        destination matches Some(d) && d@.len() >= total_size,
        is_place(total_size, payload_offset, types.value_size as int),
        some_tag >= 0,
        none_tag >= 0,
        call_ensures(
            aster_rt_dictionary_try_get,
            (
                context,
                dictionary,
                types.key_kind,
                types.key_size,
                types.key_align,
                types.key_type_key,
                types.value_size,
                types.value_align,
                types.value_type_key,
                slot,
                destination,
                total_size,
                some_tag,
                none_tag,
                payload_offset,
            ),
            (),
        ),
    ensures
        only_looks(*context->0, *final(context->0)),
        forall|p: int|
            0 <= p < pairs.len() && (#[trigger] pairs[p]).0 == key ==> tells(
                destination->0@,
                final(destination->0)@,
                total_size as int,
                payload_offset as int,
                some_tag,
                pairs[p].1,
            ),
        !is_key(pairs, key) ==> tells(
            destination->0@,
            final(destination->0)@,
            total_size as int,
            payload_offset as int,
            none_tag,
            Seq::empty(),
        ),
{
    let before = *context->0;
    let d = *dictionary->0;
    lemma_has_pairs(before, d);
    lemma_slots(before, d);
    lemma_asks_for(before, d, slot, key, "TryGet"@);
    lemma_is_sought(before, d, slot, key, "TryGet"@);
    lemma_place(pairs, key);
    let got = before.value_of(d, d.types(), slot);
    let turn = DictionaryTurn {
        act: DictionaryAct::TryGet,
        before,
        after: before,
        header: d,
        next: d,
        key: slot,
        value: None,
        result: got is Some,
        got,
    };
    law_calls_follow_from_the_pairs(turn, d.types());
    assert forall|p: int| 0 <= p < pairs.len() && (#[trigger] pairs[p]).0 == key implies tells(
        destination->0@,
        final(destination->0)@,
        total_size as int,
        payload_offset as int,
        some_tag,
        pairs[p].1,
    ) by {
        assert(is_key(pairs, key));
        let q = place_of(pairs, key);
        assert(pairs[q].0 == key);
        assert(p == q);
        assert(d.entries_in(before)[p].1.len() == d.value_size);
        lemma_option_tells(
            destination->0@,
            total_size,
            payload_offset,
            some_tag,
            none_tag,
            Some(pairs[p].1),
        );
    }
    lemma_option_tells(
        destination->0@,
        total_size,
        payload_offset,
        some_tag,
        none_tag,
        None,
    );
}

proof fn lemma_option_tells(
    before: Seq<u8>,
    total_size: i32,
    payload_offset: i32,
    some_tag: i32,
    none_tag: i32,
    payload: Option<Seq<u8>>,
)
    requires
        before.len() >= total_size,
        some_tag >= 0,
        none_tag >= 0,
        is_place(
            total_size,
            payload_offset,
            match payload {
                Some(bytes) => bytes.len() as int,
                None => 0,
            },
        ),
    ensures
        ({
            let after = option_written(
                before,
                total_size as u32,
                some_tag as u32,
                none_tag as u32,
                payload_offset as u32,
                payload,
            );
            match payload {
                Some(bytes) => tells(
                    before,
                    after,
                    total_size as int,
                    payload_offset as int,
                    some_tag,
                    bytes,
                ),
                None => tells(
                    before,
                    after,
                    total_size as int,
                    payload_offset as int,
                    none_tag,
                    Seq::empty(),
                ),
            }
        }),
{
    lemma_auto_spec_u32_to_from_le_bytes();
    let after = option_written(
        before,
        total_size as u32,
        some_tag as u32,
        none_tag as u32,
        payload_offset as u32,
        payload,
    );
    match payload {
        Some(bytes) => {
            assert(after.take(4) =~= spec_u32_to_le_bytes(some_tag as u32));
            assert(after.subrange(
                payload_offset as int,
                payload_offset + bytes.len(),
            ) =~= bytes);
        },
        None => {
            assert(after.take(4) =~= spec_u32_to_le_bytes(none_tag as u32));
            assert(after.subrange(payload_offset as int, payload_offset as int)
                =~= Seq::<u8>::empty());
        },
    }
}

/// The length of a dictionary is how many keys it has.
pub proof fn law_length(
    context: Option<&mut ExecutionContext>,
    dictionary: Option<&AsterDictionary>,
    pairs: Seq<(Seq<u8>, Seq<u8>)>,
    result: i32,
)
    requires
        context matches Some(c) && c.wf() && c.error_text() is None,
        dictionary is Some,
        has_pairs(*context->0, *dictionary->0, pairs),
        call_ensures(aster_rt_dictionary_length, (context, dictionary), result),
    ensures
        only_looks(*context->0, *final(context->0)),
        result == pairs.len(),
{
}

/// A new dictionary has no key. What asks for one of a kind that there is, with sizes
/// and alignments that fit, gets it, unless the memory for it is not at hand.
pub proof fn law_new(
    temporary: bool,
    context: Option<&mut ExecutionContext>,
    types: TypeArguments,
    result: Option<AsterDictionary>,
)
    requires
        context matches Some(c) && c.wf() && c.error_text() is None,
        ({
            let arguments = (
                context,
                types.key_kind,
                types.key_size,
                types.key_align,
                types.key_type_key,
                types.value_size,
                types.value_align,
                types.value_type_key,
            );
            if temporary {
                call_ensures(aster_rt_dictionary_new_temporary, arguments, result)
            } else {
                call_ensures(aster_rt_dictionary_new, arguments, result)
            }
        }),
        1 <= types.key_kind <= 11,
        types.key_size == slot_size(types.key_kind),
        types.value_size > 0,
        entry_layout(
            types.key_size as u32,
            types.key_align as u32,
            types.value_size as u32,
            types.value_align as u32,
        ) is Some,
        types.key_align > 0,
        types.value_align > 0,
    ensures
        result matches Some(d) ==> {
            &&& types.describe(d)
            &&& has_pairs(*final(context->0), d, Seq::empty())
            &&& final(context->0).error_text() is None
        },
        result is None ==> final(context->0).error_text() is Some,
{
    let before = *context->0;
    let after = *final(context->0);
    if let Some(d) = result {
        let region = if temporary {
            ListRegion::Temporary
        } else {
            ListRegion::Persistent
        };
        law_new_dictionary_is_empty(before, after, d.types(), region, d);
        lemma_has_pairs(after, d);
        assert(d.pairs_in(after) =~= Seq::<(Seq<u8>, Seq<u8>)>::empty());
    }
}

/// No dictionary is made for keys of no kind, for keys of another size than their kind
/// has, or for values of no size. That is reported.
pub proof fn law_new_refuses(
    temporary: bool,
    context: Option<&mut ExecutionContext>,
    types: TypeArguments,
    result: Option<AsterDictionary>,
)
    requires
        context matches Some(c) && c.wf() && c.error_text() is None,
        ({
            let arguments = (
                context,
                types.key_kind,
                types.key_size,
                types.key_align,
                types.key_type_key,
                types.value_size,
                types.value_align,
                types.value_type_key,
            );
            if temporary {
                call_ensures(aster_rt_dictionary_new_temporary, arguments, result)
            } else {
                call_ensures(aster_rt_dictionary_new, arguments, result)
            }
        }),
        ({
            ||| !(1 <= types.key_kind <= 11)
            ||| types.key_size != slot_size(types.key_kind)
            ||| types.value_size <= 0
            ||| !valid_align(types.key_align as int)
            ||| !valid_align(types.value_align as int)
            ||| temporary && context->0.scopes().len() == 0
        }),
    ensures
        result is None,
        refuses(*context->0, *final(context->0)),
{
}

/// Listing a dictionary gives an array with an element for each key, in order: the slot
/// of the key at its place, and the value at its place.
pub proof fn law_entries(
    context: Option<&mut ExecutionContext>,
    dictionary: Option<&AsterDictionary>,
    types: TypeArguments,
    entry_size: i32,
    key_offset: i32,
    value_offset: i32,
    temporary: i8,
    pairs: Seq<(Seq<u8>, Seq<u8>)>,
    result: Option<AsterArray>,
)
    requires
        context matches Some(c) && c.wf() && c.error_text() is None,
        dictionary matches Some(d) && types.describe(*d),
        has_pairs(*context->0, *dictionary->0, pairs),
        key_offset >= 0,
        value_offset >= 0,
        key_offset + types.key_size <= value_offset || value_offset + types.value_size
            <= key_offset,
        call_ensures(
            aster_rt_dictionary_entries,
            (
                context,
                dictionary,
                types.key_kind,
                types.key_size,
                types.key_align,
                types.key_type_key,
                types.value_size,
                types.value_align,
                types.value_type_key,
                entry_size,
                key_offset,
                value_offset,
                temporary,
            ),
            result,
        ),
    ensures
        result matches Some(array) ==> {
            &&& array.length == pairs.len()
            &&& array.element_size == entry_size
            &&& forall|p: int|
                0 <= p < pairs.len() ==> lists_pair(
                    final(context->0).mem(),
                    types,
                    array.data + p * entry_size,
                    key_offset as int,
                    value_offset as int,
                    #[trigger] pairs[p],
                )
        },
        result is None ==> final(context->0).error_text() is Some,
        keeps(context->0.mem(), final(context->0).mem()),
{
    let before = *context->0;
    let after = *final(context->0);
    let d = *dictionary->0;
    let m = after.mem();
    lemma_has_pairs(before, d);
    lemma_slots(before, d);
    assert(preserved(before.mem(), m));
    if let Some(array) = result {
        let n = (d.length * entry_size) as nat;
        let bytes = bytes_at(m, array.data as int, n);
        assert forall|p: int| 0 <= p < pairs.len() implies lists_pair(
            m,
            types,
            array.data + p * entry_size,
            key_offset as int,
            value_offset as int,
            #[trigger] pairs[p],
        ) by {
            lemma_cell_bounds(entry_size as int, p, pairs.len() as int);
            let entry = d.entries_in(before)[p];
            let element = snapshot_element(
                entry,
                entry_size as u32,
                key_offset as u32,
                value_offset as u32,
            );
            let at = p * entry_size;
            assert(bytes.subrange(at, at + entry_size) == element);
            assert forall|k: int| 0 <= k < entry_size implies #[trigger] element[k] == m[array.data
                + at + k] by {
                assert(bytes.subrange(at, at + entry_size)[k] == bytes[at + k]);
            }
            assert(has_range(m, array.data as int, n as int));
            assert(holds(m, array.data + at + key_offset, entry.0)) by {
                assert forall|k: int| 0 <= k < entry.0.len() implies m.contains_key(
                    array.data + at + key_offset + k,
                ) && m[array.data + at + key_offset + k] == #[trigger] entry.0[k] by {
                    assert(element[key_offset + k] == entry.0[k]);
                }
            }
            assert(holds(m, array.data + at + value_offset, entry.1)) by {
                assert forall|k: int| 0 <= k < entry.1.len() implies m.contains_key(
                    array.data + at + value_offset + k,
                ) && m[array.data + at + value_offset + k] == #[trigger] entry.1[k] by {
                    assert(element[value_offset + k] == entry.1[k]);
                }
            }
            lemma_stands_on(before.mem(), m, types.key_kind, entry.0, pairs[p].0);
        }
    }
}

/// An element lists a pair.
pub open spec fn lists_pair(
    m: Map<int, u8>,
    types: TypeArguments,
    at: int,
    key_offset: int,
    value_offset: int,
    pair: (Seq<u8>, Seq<u8>),
) -> bool {
    &&& exists|slot: Seq<u8>| #[trigger]
        holds(m, at + key_offset, slot) && stands_for(m, types.key_kind, slot, pair.0)
    &&& holds(m, at + value_offset, pair.1)
}

/// A slot stands for its key while memory is kept.
proof fn lemma_stands_on(
    m: Map<int, u8>,
    w: Map<int, u8>,
    number: i32,
    slot: Seq<u8>,
    key: Seq<u8>,
)
    requires
        stands_for(m, number, slot, key),
        preserved(m, w),
    ensures
        stands_for(w, number, slot, key),
{
    if number == 11 {
        let address = choose|address: u64|
            {
                &&& #[trigger] says_bytes(m, address, key)
                &&& slot == spec_u64_to_le_bytes(address)
                &&& valid_utf8(key)
                &&& key.len() <= usize::MAX
                &&& address + 8 <= u64::MAX
            };
        lemma_says_on(m, w, address, key);
    }
}

/// A text is the same key as another just when it is the same text, however long the two
/// are and wherever they lie: a dictionary that has only the one takes the other unless
/// it is the same.
pub proof fn law_keys_are_whole_texts(
    context: Option<&mut ExecutionContext>,
    dictionary: Option<&mut AsterDictionary>,
    types: TypeArguments,
    slot: Option<&[u8]>,
    value: Option<&[u8]>,
    there: Seq<char>,
    old_value: Seq<u8>,
    asked: Seq<char>,
    result: i8,
)
    requires
        context matches Some(c) && c.wf() && c.error_text() is None,
        dictionary matches Some(d) && types.describe(*d),
        types.key_kind == 11,
        has_pairs(*context->0, *dictionary->0, seq![(encode_utf8(there), old_value)]),
        asks_for(*context->0, *dictionary->0, slot, encode_utf8(asked)),
        value matches Some(v) && v@.len() >= types.value_size,
        call_ensures(
            aster_rt_dictionary_add,
            (
                context,
                dictionary,
                types.key_kind,
                types.key_size,
                types.key_align,
                types.key_type_key,
                types.value_size,
                types.value_align,
                types.value_type_key,
                slot,
                value,
            ),
            result,
        ),
        final(context->0).error_text() is None,
    ensures
        result == 0 <==> there == asked,
        result == 1 <==> there != asked,
{
    let pairs = seq![(encode_utf8(there), old_value)];
    law_add(
        context,
        dictionary,
        types,
        slot,
        value,
        pairs,
        encode_utf8(asked),
        result,
    );
    encode_utf8_decode_utf8(there);
    encode_utf8_decode_utf8(asked);
    if there == asked {
        assert(pairs[0].0 == encode_utf8(asked));
    }
}

/// Two keys are the same just when the slots stand for the same bytes, and the hash of a
/// key is that of the bytes that its slot stands for, so that the same keys have the same
/// hash.
pub proof fn law_keys_are_what_slots_stand_for(
    comparing: &mut ExecutionContext,
    hashing: &mut ExecutionContext,
    kind: DictionaryKeyKind,
    left: Option<&[u8]>,
    right: Option<&[u8]>,
    key_size: u32,
    operation: &str,
    a: Seq<u8>,
    b: Seq<u8>,
    equal: Option<bool>,
    hash: Option<u64>,
)
    requires
        key_size == slot_size(number_of(kind)),
        left matches Some(l) && l@.len() >= key_size && stands_for(
            old(comparing).mem(),
            number_of(kind),
            l@.take(key_size as int),
            a,
        ),
        right matches Some(r) && r@.len() >= key_size && stands_for(
            old(comparing).mem(),
            number_of(kind),
            r@.take(key_size as int),
            b,
        ),
        old(hashing).mem() == old(comparing).mem(),
        call_ensures(
            ExecutionContext::dictionary_keys_equal,
            (comparing, kind, left, right, key_size, operation),
            equal,
        ),
        call_ensures(
            ExecutionContext::dictionary_hash_key,
            (hashing, kind, left, key_size, operation),
            hash,
        ),
    ensures
        equal matches Some(same) ==> same == (a == b),
        hash matches Some(h) ==> exists|words: Seq<u64>, states: Seq<SipState>, end: SipState|
            #[trigger] is_run(
                old(hashing).configuration().identity.dictionary_hash_k0,
                old(hashing).configuration().identity.dictionary_hash_k1,
                a,
                words,
                states,
                end,
                h,
            ),
{
    let m = comparing.mem();
    lemma_stands_for(m, kind, left->0@.take(key_size as int), a);
    lemma_stands_for(m, kind, right->0@.take(key_size as int), b);
    lemma_hash_is_run(
        hashing.configuration().identity.dictionary_hash_k0,
        hashing.configuration().identity.dictionary_hash_k1,
        a,
    );
}

} // verus!

//! What a dictionary amounts to over any number of calls.
//!
//! A dictionary is the sequence of its pairs of key and value, in insertion order.
//! What a call returns, and what it makes of that sequence, follows from the
//! sequence, the key and the value alone.

use vstd::prelude::*;

use crate::context::ExecutionContext;
use crate::dictionary::{key_report, AsterDictionary, DictionaryTypes};
use crate::dictionary_laws::{
    entry_of, keys_mean_the_same, law_duplicate_is_not_added, law_remove_takes_the_entry_out,
    law_search_finds_exactly_the_entry, law_set_replaces_in_place, lemma_cell_of_entry,
    lemma_new_entry,
};
use crate::dictionary_table::key_content;

verus! {

impl AsterDictionary {
    /// The pairs of key and value, in insertion order.
    pub open spec fn pairs_in(self, c: ExecutionContext) -> Seq<(Seq<u8>, Seq<u8>)> {
        Seq::new(
            self.entries_in(c).len(),
            |p: int|
                (
                    key_content(c.mem(), self.key_kind, self.entries_in(c)[p].0)->0,
                    self.entries_in(c)[p].1,
                ),
        )
    }
}

/// Whether pair `p` has the key.
pub open spec fn pair_of(pairs: Seq<(Seq<u8>, Seq<u8>)>, key: Seq<u8>, p: int) -> bool {
    0 <= p < pairs.len() && pairs[p].0 == key
}

/// Whether some pair has the key.
pub open spec fn has_key(pairs: Seq<(Seq<u8>, Seq<u8>)>, key: Seq<u8>) -> bool {
    exists|p: int| pair_of(pairs, key, p)
}

/// The place of the pair with the key.
pub open spec fn place_of(pairs: Seq<(Seq<u8>, Seq<u8>)>, key: Seq<u8>) -> int {
    choose|p: int| pair_of(pairs, key, p)
}

/// What a program does with a dictionary.
#[derive(Clone, Copy, Debug, PartialEq, Eq, Structural)]
pub enum DictionaryAct {
    Add,
    Assign,
    Remove,
    ContainsKey,
    TryGet,
}

/// The pairs after an act.
pub open spec fn pairs_after(
    pairs: Seq<(Seq<u8>, Seq<u8>)>,
    act: DictionaryAct,
    key: Seq<u8>,
    value: Seq<u8>,
) -> Seq<(Seq<u8>, Seq<u8>)> {
    match act {
        DictionaryAct::Add => if has_key(pairs, key) {
            pairs
        } else {
            pairs.push((key, value))
        },
        DictionaryAct::Assign => if has_key(pairs, key) {
            pairs.update(place_of(pairs, key), (key, value))
        } else {
            pairs.push((key, value))
        },
        DictionaryAct::Remove => if has_key(pairs, key) {
            pairs.remove(place_of(pairs, key))
        } else {
            pairs
        },
        _ => pairs,
    }
}

/// What an act returns: whether it added, replaced, removed or found a pair.
pub open spec fn answer(
    pairs: Seq<(Seq<u8>, Seq<u8>)>,
    act: DictionaryAct,
    key: Seq<u8>,
) -> bool {
    match act {
        DictionaryAct::Add => !has_key(pairs, key),
        _ => has_key(pairs, key),
    }
}

/// The value that is found under a key.
pub open spec fn found(pairs: Seq<(Seq<u8>, Seq<u8>)>, key: Seq<u8>) -> Option<Seq<u8>> {
    if has_key(pairs, key) {
        Some(pairs[place_of(pairs, key)].1)
    } else {
        None
    }
}

/// One call on a dictionary.
pub struct DictionaryTurn<'a> {
    pub act: DictionaryAct,
    pub before: ExecutionContext,
    pub after: ExecutionContext,
    /// The header before the call.
    pub header: AsterDictionary,
    /// The header after the call.
    pub next: AsterDictionary,
    pub key: Option<&'a [u8]>,
    pub value: Option<&'a [u8]>,
    /// Whether the call added, replaced, removed or found something.
    pub result: bool,
    /// What a `TryGet` found.
    pub got: Option<Seq<u8>>,
}

impl<'a> DictionaryTurn<'a> {
    /// The name under which the act reports.
    pub open spec fn name(self) -> Seq<char> {
        match self.act {
            DictionaryAct::Add => "Add"@,
            DictionaryAct::Assign => "Set"@,
            DictionaryAct::Remove => "Remove"@,
            DictionaryAct::ContainsKey => "ContainsKey"@,
            DictionaryAct::TryGet => "TryGet"@,
        }
    }

    /// The key that the call is about.
    pub open spec fn about(self, types: DictionaryTypes) -> Seq<u8> {
        self.before.sought(types, self.key)
    }

    /// The value that the call stores.
    pub open spec fn stores(self, types: DictionaryTypes) -> Seq<u8> {
        self.value->0@.take(types.value_size as int)
    }

    /// The result as it crosses the boundary.
    pub open spec fn flag(self) -> i8 {
        if self.result {
            1
        } else {
            0
        }
    }

    /// The call did what its contract says.
    pub open spec fn made(self, types: DictionaryTypes) -> bool {
        match self.act {
            DictionaryAct::Add => self.after.put_outcome(
                self.before,
                self.header,
                self.next,
                types,
                self.key,
                self.value,
                false,
                self.flag(),
            ),
            DictionaryAct::Assign => self.after.put_outcome(
                self.before,
                self.header,
                self.next,
                types,
                self.key,
                self.value,
                true,
                self.flag(),
            ),
            DictionaryAct::Remove => self.after.take_outcome(
                self.before,
                self.header,
                self.next,
                types,
                self.key,
                true,
                self.flag(),
            ),
            DictionaryAct::ContainsKey => self.after.take_outcome(
                self.before,
                self.header,
                self.next,
                types,
                self.key,
                false,
                self.flag(),
            ),
            DictionaryAct::TryGet => {
                &&& self.after == self.before
                &&& self.next == self.header
                &&& self.got == self.before.value_of(self.header, types, self.key)
                &&& self.result == (self.got is Some)
            },
        }
    }

    /// The call was made on a valid dictionary with a key that can be read, and
    /// nothing was reported.
    pub open spec fn is_proper(self, types: DictionaryTypes) -> bool {
        &&& self.header.holds_in(self.before)
        &&& self.header.types() == types
        &&& self.before.error_text() is None
        &&& self.after.error_text() is None
        &&& self.key matches Some(k) && k@.len() >= types.key_size
        &&& self.act == DictionaryAct::Add || self.act == DictionaryAct::Assign ==> {
            self.value matches Some(v) && v@.len() >= types.value_size
        }
        &&& key_report(
            self.before.mem(),
            types.key_kind,
            self.key,
            types.key_size,
            self.name(),
        ) is None
        &&& self.header.bucket_capacity > 0 ==> self.header.key_apart(
            self.before.mem(),
            self.key->0@.take(types.key_size as int),
        )
        &&& self.made(types)
    }
}

/// The pairs of a valid dictionary have keys that can be read.
proof fn lemma_pair_is_entry(
    c: ExecutionContext,
    d: AsterDictionary,
    types: DictionaryTypes,
    key: Option<&[u8]>,
)
    requires
        d.holds_in(c),
    ensures
        forall|p: int|
            #[trigger] pair_of(d.pairs_in(c), c.sought(types, key), p) <==> entry_of(
                c,
                d,
                types,
                key,
                p,
            ),
        forall|p: int|
            0 <= p < d.entries_in(c).len() ==> key_content(
                c.mem(),
                d.key_kind,
                (#[trigger] d.entries_in(c)[p]).0,
            ) is Some,
{
    let table = d.table(c.mem());
    let n = table.cells.len() as int;
    assert forall|p: int| 0 <= p < d.entries_in(c).len() implies key_content(
        c.mem(),
        d.key_kind,
        (#[trigger] d.entries_in(c)[p]).0,
    ) is Some by {
        let i = lemma_cell_of_entry(table.cells, p, n);
        if d.bucket_capacity == 0 {
            assert(table.cells.len() == 0);
        }
        assert(table.cells[i].live == 1);
    }
    assert forall|p: int|
        #[trigger] pair_of(d.pairs_in(c), c.sought(types, key), p) <==> entry_of(
        c,
        d,
        types,
        key,
        p,
    ) by {
        if 0 <= p < d.entries_in(c).len() {
            assert(key_content(c.mem(), d.key_kind, d.entries_in(c)[p].0) is Some);
        }
    }
}

/// What a call returns, and what it makes of a dictionary, follows from its pairs
/// before, the key and the value alone. Nothing of it depends on the seed of the
/// context, on where the dictionary lies or on how it is laid out.
pub proof fn law_calls_follow_from_the_pairs(turn: DictionaryTurn, types: DictionaryTypes)
    requires
        turn.is_proper(types),
    ensures
        ({
            let pairs = turn.header.pairs_in(turn.before);
            let key = turn.about(types);
            &&& turn.next.holds_in(turn.after)
            &&& turn.next.types() == types
            &&& turn.next.pairs_in(turn.after) == pairs_after(
                pairs,
                turn.act,
                key,
                turn.stores(types),
            )
            &&& turn.result == answer(pairs, turn.act, key)
            &&& turn.act == DictionaryAct::TryGet ==> turn.got == found(pairs, key)
        }),
{
    let before = turn.before;
    let after = turn.after;
    let d = turn.header;
    let e = turn.next;
    let pairs = d.pairs_in(before);
    let key = turn.about(types);
    let slot = turn.key->0@.take(types.key_size as int);
    let value = turn.value->0;
    lemma_pair_is_entry(before, d, types, turn.key);
    law_search_finds_exactly_the_entry(before, d, types, turn.key, turn.name());
    assert(has_key(pairs, key) <==> exists|p: int| entry_of(before, d, types, turn.key, p)) by {
        if has_key(pairs, key) {
            let p = choose|p: int| pair_of(pairs, key, p);
            assert(entry_of(before, d, types, turn.key, p));
        }
        if exists|p: int| entry_of(before, d, types, turn.key, p) {
            let p = choose|p: int| entry_of(before, d, types, turn.key, p);
            assert(pair_of(pairs, key, p));
        }
    }
    if has_key(pairs, key) {
        let p = place_of(pairs, key);
        assert(pair_of(pairs, key, p));
        assert(entry_of(before, d, types, turn.key, p));
        match turn.act {
            DictionaryAct::Add => {
                law_duplicate_is_not_added(
                    before,
                    after,
                    d,
                    e,
                    types,
                    turn.key,
                    value,
                    p,
                    turn.flag(),
                );
                assert(after.mem() == before.mem());
                assert(e.pairs_in(after) =~= pairs);
            },
            DictionaryAct::Assign => {
                law_set_replaces_in_place(
                    before,
                    after,
                    d,
                    e,
                    types,
                    turn.key,
                    value,
                    p,
                    turn.flag(),
                );
                assert(keys_mean_the_same(before, after, e));
                assert(e.pairs_in(after) =~= pairs.update(p, (key, turn.stores(types))));
            },
            DictionaryAct::Remove => {
                law_remove_takes_the_entry_out(
                    before,
                    after,
                    d,
                    e,
                    types,
                    turn.key,
                    p,
                    turn.flag(),
                );
                assert(keys_mean_the_same(before, after, e));
                assert(e.pairs_in(after) =~= pairs.remove(p));
            },
            _ => {},
        }
    } else {
        match turn.act {
            DictionaryAct::Add => {
                lemma_new_entry(
                    before,
                    after,
                    d,
                    e,
                    types,
                    turn.key,
                    value,
                    false,
                    turn.flag(),
                );
                assert(keys_mean_the_same(before, after, e));
                assert(e.entries_in(after).last() == (slot, turn.stores(types)));
                assert(e.pairs_in(after) =~= pairs.push((key, turn.stores(types))));
            },
            DictionaryAct::Assign => {
                lemma_new_entry(
                    before,
                    after,
                    d,
                    e,
                    types,
                    turn.key,
                    value,
                    true,
                    turn.flag(),
                );
                assert(keys_mean_the_same(before, after, e));
                assert(e.entries_in(after).last() == (slot, turn.stores(types)));
                assert(e.pairs_in(after) =~= pairs.push((key, turn.stores(types))));
            },
            _ => {},
        }
    }
}

/// The calls are proper, each on the dictionary that the call before it left. What
/// happens between two calls does not touch the dictionary.
pub open spec fn is_history(turns: Seq<DictionaryTurn>, types: DictionaryTypes) -> bool {
    &&& forall|i: int| 0 <= i < turns.len() ==> (#[trigger] turns[i]).is_proper(types)
    &&& forall|i: int|
        0 < i < turns.len() ==> (#[trigger] turns[i]).header.pairs_in(turns[i].before) == turns[i
            - 1].next.pairs_in(turns[i - 1].after)
}

/// Two histories are about the same: the same acts on the same keys and values.
pub open spec fn are_alike(
    some: Seq<DictionaryTurn>,
    other: Seq<DictionaryTurn>,
    types: DictionaryTypes,
) -> bool {
    &&& some.len() == other.len()
    &&& forall|i: int|
        0 <= i < some.len() ==> {
            &&& (#[trigger] some[i]).act == other[i].act
            &&& some[i].about(types) == other[i].about(types)
            &&& some[i].stores(types) == other[i].stores(types)
        }
}

/// Nothing that a program can observe of a dictionary depends on the seed of its
/// context: two dictionaries with the same pairs, in contexts of any seeds, give
/// the same results to the same calls, however many there are, and have the same
/// pairs in the same order after each.
pub proof fn law_histories_do_not_depend_on_the_seed(
    some: Seq<DictionaryTurn>,
    other: Seq<DictionaryTurn>,
    types: DictionaryTypes,
    i: int,
)
    requires
        is_history(some, types),
        is_history(other, types),
        are_alike(some, other, types),
        0 <= i < some.len(),
        some[0].header.pairs_in(some[0].before) == other[0].header.pairs_in(other[0].before),
    ensures
        some[i].result == other[i].result,
        some[i].act == DictionaryAct::TryGet ==> some[i].got == other[i].got,
        some[i].next.pairs_in(some[i].after) == other[i].next.pairs_in(other[i].after),
    decreases i,
{
    if i > 0 {
        law_histories_do_not_depend_on_the_seed(some, other, types, i - 1);
    }
    assert(some[i].act == other[i].act);
    assert(some[i].is_proper(types) && other[i].is_proper(types));
    law_calls_follow_from_the_pairs(some[i], types);
    law_calls_follow_from_the_pairs(other[i], types);
}

} // verus!

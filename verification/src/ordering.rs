//! The ordinal order of texts, and sorting by it.

use vstd::prelude::*;
use vstd::utf8::*;

use crate::filesystem::texts;

verus! {

/// Whether `a` does not come after `b` when bytes are compared from the front.
pub open spec fn bytes_in_order(a: Seq<u8>, b: Seq<u8>) -> bool
    decreases a.len(),
{
    if a.len() == 0 {
        true
    } else if b.len() == 0 {
        false
    } else {
        a[0] < b[0] || a[0] == b[0] && bytes_in_order(a.drop_first(), b.drop_first())
    }
}

/// Whether `a` does not come after `b` in the ordinal order of texts: that of
/// their bytes.
pub open spec fn in_order(a: Seq<char>, b: Seq<char>) -> bool {
    bytes_in_order(encode_utf8(a), encode_utf8(b))
}

/// Whether texts rise, or fall, from each to every later one.
pub open spec fn ordered(texts: Seq<Seq<char>>, falling: bool) -> bool {
    forall|i: int, j: int|
        #![trigger texts[i], texts[j]]
        0 <= i < j < texts.len() ==> if falling {
            in_order(texts[j], texts[i])
        } else {
            in_order(texts[i], texts[j])
        }
}

/// Whether `sorted` holds the texts of `given` in ordinal order.
pub open spec fn is_sorted_copy(sorted: Seq<Seq<char>>, given: Seq<Seq<char>>) -> bool {
    &&& ordered(sorted, false)
    &&& sorted.to_multiset() == given.to_multiset()
}

proof fn lemma_bytes_total(a: Seq<u8>, b: Seq<u8>)
    ensures
        bytes_in_order(a, b) || bytes_in_order(b, a),
    decreases a.len(),
{
    if a.len() > 0 && b.len() > 0 {
        lemma_bytes_total(a.drop_first(), b.drop_first());
    }
}

proof fn lemma_bytes_transitive(a: Seq<u8>, b: Seq<u8>, c: Seq<u8>)
    requires
        bytes_in_order(a, b),
        bytes_in_order(b, c),
    ensures
        bytes_in_order(a, c),
    decreases a.len(),
{
    if a.len() > 0 && a[0] == b[0] && b[0] == c[0] {
        lemma_bytes_transitive(a.drop_first(), b.drop_first(), c.drop_first());
    }
}

proof fn lemma_bytes_antisymmetric(a: Seq<u8>, b: Seq<u8>)
    requires
        bytes_in_order(a, b),
        bytes_in_order(b, a),
    ensures
        a == b,
    decreases a.len(),
{
    if a.len() > 0 {
        lemma_bytes_antisymmetric(a.drop_first(), b.drop_first());
        assert(a =~= seq![a[0]] + a.drop_first());
        assert(b =~= seq![b[0]] + b.drop_first());
    } else {
        assert(a =~= b);
    }
}

/// A text does not come after itself.
proof fn lemma_bytes_reflexive(a: Seq<u8>)
    ensures
        bytes_in_order(a, a),
    decreases a.len(),
{
    if a.len() > 0 {
        lemma_bytes_reflexive(a.drop_first());
    }
}

/// Texts that neither comes after the other are the same text.
pub proof fn law_order_tells_texts_apart(a: Seq<char>, b: Seq<char>)
    requires
        in_order(a, b),
        in_order(b, a),
    ensures
        a == b,
{
    lemma_bytes_antisymmetric(encode_utf8(a), encode_utf8(b));
    encode_utf8_decode_utf8(a);
    encode_utf8_decode_utf8(b);
}

/// Of any two texts one does not come after the other.
pub proof fn law_order_is_total(a: Seq<char>, b: Seq<char>)
    ensures
        in_order(a, b) || in_order(b, a),
{
    lemma_bytes_total(encode_utf8(a), encode_utf8(b));
}

/// There is only one way to put texts in order.
pub proof fn law_sorting_has_one_result(
    a: Seq<Seq<char>>,
    b: Seq<Seq<char>>,
    given: Seq<Seq<char>>,
)
    requires
        is_sorted_copy(a, given),
        is_sorted_copy(b, given),
    ensures
        a == b,
    decreases a.len(),
{
    a.to_multiset_ensures();
    b.to_multiset_ensures();
    assert(a.len() == b.len());
    if a.len() > 0 {
        let x = a.last();
        let y = b.last();
        assert(a.contains(x) && b.contains(y));
        assert(b.contains(x)) by {
            assert(b.to_multiset().count(x) > 0);
        }
        assert(a.contains(y)) by {
            assert(a.to_multiset().count(y) > 0);
        }
        let i = choose|i: int| 0 <= i < b.len() && b[i] == x;
        let j = choose|j: int| 0 <= j < a.len() && a[j] == y;
        lemma_bytes_reflexive(encode_utf8(x));
        assert(in_order(x, y));
        assert(in_order(y, x));
        law_order_tells_texts_apart(x, y);
        let a1 = a.drop_last();
        let b1 = b.drop_last();
        a.to_multiset_ensures();
        assert(a =~= a1.push(x));
        assert(b =~= b1.push(y));
        a1.to_multiset_ensures();
        b1.to_multiset_ensures();
        assert(a.to_multiset() =~= a1.to_multiset().insert(x));
        assert(b.to_multiset() =~= b1.to_multiset().insert(x));
        assert(a1.to_multiset() =~= b1.to_multiset()) by {
            assert(a1.to_multiset() =~= a1.to_multiset().insert(x).remove(x));
            assert(b1.to_multiset() =~= b1.to_multiset().insert(x).remove(x));
        }
        law_sorting_has_one_result(a1, b1, a1);
    }
}

/// Compares bytes from the front.
fn bytes_before(a: &[u8], b: &[u8]) -> (result: bool)
    ensures
        result == bytes_in_order(a@, b@),
{
    let mut i: usize = 0;
    proof {
        assert(a@.skip(0) =~= a@);
        assert(b@.skip(0) =~= b@);
    }
    while i < a.len() && i < b.len()
        invariant
            i <= a@.len(),
            i <= b@.len(),
            bytes_in_order(a@, b@) == bytes_in_order(a@.skip(i as int), b@.skip(i as int)),
        decreases a@.len() - i,
    {
        proof {
            assert(a@.skip(i as int).drop_first() =~= a@.skip(i + 1));
            assert(b@.skip(i as int).drop_first() =~= b@.skip(i + 1));
        }
        if a[i] != b[i] {
            return a[i] < b[i];
        }
        i = i + 1;
    }
    i == a.len()
}

/// Whether `a` does not come after `b`.
pub fn text_before(a: &str, b: &str) -> (result: bool)
    ensures
        result == in_order(a@, b@),
{
    bytes_before(a.as_bytes(), b.as_bytes())
}

/// Puts the texts of two lists, which both rise or both fall, into one list that
/// goes the other way.
fn merge(left: Vec<String>, right: Vec<String>, falling: bool) -> (merged: Vec<String>)
    requires
        ordered(texts(left@), !falling),
        ordered(texts(right@), !falling),
    ensures
        ordered(texts(merged@), falling),
        texts(merged@).to_multiset() == texts(left@).to_multiset().add(
            texts(right@).to_multiset(),
        ),
{
    let mut left: Vec<String> = left;
    let mut right: Vec<String> = right;
    let ghost all = texts(left@).to_multiset().add(texts(right@).to_multiset());
    let mut merged: Vec<String> = Vec::new();
    proof {
        texts(merged@).to_multiset_ensures();
        assert(texts(merged@) =~= Seq::empty());
        assert(texts(merged@).to_multiset().add(texts(left@).to_multiset()).add(
            texts(right@).to_multiset(),
        ) =~= all);
    }
    while left.len() > 0 || right.len() > 0
        invariant
            ordered(texts(left@), !falling),
            ordered(texts(right@), !falling),
            ordered(texts(merged@), falling),
            forall|i: int, j: int|
                #![trigger texts(merged@)[i], texts(left@)[j]]
                0 <= i < merged@.len() && 0 <= j < left@.len() ==> if falling {
                    in_order(texts(left@)[j], texts(merged@)[i])
                } else {
                    in_order(texts(merged@)[i], texts(left@)[j])
                },
            forall|i: int, j: int|
                #![trigger texts(merged@)[i], texts(right@)[j]]
                0 <= i < merged@.len() && 0 <= j < right@.len() ==> if falling {
                    in_order(texts(right@)[j], texts(merged@)[i])
                } else {
                    in_order(texts(merged@)[i], texts(right@)[j])
                },
            texts(merged@).to_multiset().add(texts(left@).to_multiset()).add(
                texts(right@).to_multiset(),
            ) == all,
        decreases left@.len() + right@.len(),
    {
        let from_left: bool = if right.len() == 0 {
            true
        } else if left.len() == 0 {
            false
        } else {
            let a: &str = left[left.len() - 1].as_str();
            let b: &str = right[right.len() - 1].as_str();
            if falling {
                text_before(b, a)
            } else {
                text_before(a, b)
            }
        };
        let ghost (l, r, m) = (texts(left@), texts(right@), texts(merged@));
        let taken: Option<String> = if from_left {
            left.pop()
        } else {
            right.pop()
        };
        if let Some(text) = taken {
            proof {
                let (from, other) = if from_left {
                    (l, r)
                } else {
                    (r, l)
                };
                assert(text@ == from.last());
                if other.len() > 0 {
                    law_order_is_total(text@, other.last());
                    assert(if falling {
                        in_order(other.last(), text@)
                    } else {
                        in_order(text@, other.last())
                    });
                }
                assert forall|j: int| 0 <= j < other.len() implies if falling {
                    in_order(#[trigger] other[j], text@)
                } else {
                    in_order(text@, other[j])
                } by {
                    if j < other.len() - 1 {
                        if falling {
                            lemma_bytes_transitive(
                                encode_utf8(other[j]),
                                encode_utf8(other.last()),
                                encode_utf8(text@),
                            );
                        } else {
                            lemma_bytes_transitive(
                                encode_utf8(text@),
                                encode_utf8(other.last()),
                                encode_utf8(other[j]),
                            );
                        }
                    }
                }
                let rest = from.drop_last();
                assert(from =~= rest.push(text@));
                rest.to_multiset_ensures();
                m.to_multiset_ensures();
                assert(from.to_multiset() =~= rest.to_multiset().insert(text@));
                assert(m.push(text@).to_multiset() =~= m.to_multiset().insert(text@));
                assert(texts(left@) =~= if from_left {
                    rest
                } else {
                    l
                });
                assert(texts(right@) =~= if from_left {
                    r
                } else {
                    rest
                });
            }
            merged.push(text);
            proof {
                assert(texts(merged@) =~= m.push(taken->0@));
                assert(texts(merged@).to_multiset().add(texts(left@).to_multiset()).add(
                    texts(right@).to_multiset(),
                ) =~= m.to_multiset().add(l.to_multiset()).add(r.to_multiset()));
            }
        }
    }
    proof {
        assert(texts(left@) =~= Seq::empty());
        assert(texts(right@) =~= Seq::empty());
        texts(left@).to_multiset_ensures();
        texts(right@).to_multiset_ensures();
        assert(texts(merged@).to_multiset() =~= all);
    }
    merged
}

/// Sorts by halves, each half the other way round.
fn sort_directed(given: Vec<String>, falling: bool) -> (sorted: Vec<String>)
    ensures
        ordered(texts(sorted@), falling),
        texts(sorted@).to_multiset() == texts(given@).to_multiset(),
    decreases given@.len(),
{
    let mut left: Vec<String> = given;
    let count: usize = left.len();
    if count < 2 {
        return left;
    }
    let ghost all = texts(left@);
    let right: Vec<String> = left.split_off(count / 2);
    proof {
        assert(all =~= texts(left@) + texts(right@));
        vstd::seq_lib::lemma_multiset_commutative(texts(left@), texts(right@));
    }
    merge(sort_directed(left, !falling), sort_directed(right, !falling), falling)
}

/// Puts texts in ordinal order.
pub fn sort_texts(given: Vec<String>) -> (sorted: Vec<String>)
    ensures
        is_sorted_copy(texts(sorted@), texts(given@)),
{
    sort_directed(given, false)
}

} // verus!

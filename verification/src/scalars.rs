//! Text as a sequence of Unicode scalar values: searching, splitting and
//! trimming.

use vstd::prelude::*;
use vstd::utf8::*;

use crate::utf8::{decode_scalar, lemma_step, push_scalar};

verus! {

/// The text that scalar values stand for.
pub open spec fn chars_of(scalars: Seq<u32>) -> Seq<char> {
    Seq::new(scalars.len(), |i: int| scalars[i] as char)
}

/// Every number is a Unicode scalar value.
pub open spec fn all_scalars(scalars: Seq<u32>) -> bool {
    forall|i: int| 0 <= i < scalars.len() ==> is_scalar(#[trigger] scalars[i])
}

/// Different scalar values are different characters.
pub proof fn lemma_same_char(a: u32, b: u32)
    requires
        is_scalar(a),
        is_scalar(b),
    ensures
        (a as char) as u32 == a,
        a as char == b as char <==> a == b,
{
}

/// The scalar values of valid UTF-8.
pub fn scalars_of(bytes: &[u8]) -> (scalars: Vec<u32>)
    requires
        valid_utf8(bytes@),
    ensures
        all_scalars(scalars@),
        chars_of(scalars@) == decode_utf8(bytes@),
        scalars@.len() <= bytes@.len(),
{
    let mut scalars: Vec<u32> = Vec::new();
    let mut at: usize = 0;
    proof {
        is_char_boundary_start_end_of_seq(bytes@);
        assert(bytes@.subrange(0, 0) =~= Seq::<u8>::empty());
        assert(chars_of(scalars@) =~= decode_utf8(bytes@.subrange(0, 0)));
    }
    while at < bytes.len()
        invariant
            valid_utf8(bytes@),
            at <= bytes@.len(),
            is_char_boundary(bytes@, at as int),
            valid_utf8(bytes@.subrange(0, at as int)),
            all_scalars(scalars@),
            scalars@.len() <= at,
            chars_of(scalars@) == decode_utf8(bytes@.subrange(0, at as int)),
        decreases bytes@.len() - at,
    {
        proof {
            lemma_step(bytes@, at as int);
        }
        match decode_scalar(bytes, at) {
            None => {
                assert(false);
            },
            Some((scalar, width)) => {
                let ghost before = scalars@;
                scalars.push(scalar);
                assert(chars_of(scalars@) =~= chars_of(before).push(scalar as char));
                at = at + width;
            },
        }
    }
    assert(bytes@.subrange(0, at as int) =~= bytes@);
    scalars
}

/// The encoding of a text is the encodings of its parts.
pub proof fn lemma_encode_concat(a: Seq<char>, b: Seq<char>)
    ensures
        encode_utf8(a + b) == encode_utf8(a) + encode_utf8(b),
    decreases a.len(),
{
    if a.len() == 0 {
        assert(a + b =~= b);
        assert(encode_utf8(a) + encode_utf8(b) =~= encode_utf8(b));
    } else {
        lemma_encode_concat(a.drop_first(), b);
        assert((a + b).drop_first() =~= a.drop_first() + b);
        assert(encode_utf8(a + b) =~= encode_utf8(a) + encode_utf8(b));
    }
}

pub proof fn lemma_encode_one(c: char)
    ensures
        encode_utf8(seq![c]) == encode_scalar(c as u32),
{
    reveal_with_fuel(encode_utf8, 2);
    assert(seq![c].drop_first() =~= Seq::<char>::empty());
    assert(encode_utf8(seq![c]) =~= encode_scalar(c as u32));
}

/// The encoding of part of a text.
pub fn encode_range(scalars: &[u32], from: usize, to: usize) -> (bytes: Vec<u8>)
    requires
        all_scalars(scalars@),
        from <= to <= scalars@.len(),
    ensures
        bytes@ == encode_utf8(chars_of(scalars@).subrange(from as int, to as int)),
{
    let mut bytes: Vec<u8> = Vec::new();
    let mut i: usize = from;
    let ghost chars = chars_of(scalars@);
    assert(chars.subrange(from as int, from as int) =~= Seq::<char>::empty());
    while i < to
        invariant
            from <= i <= to <= scalars@.len(),
            all_scalars(scalars@),
            chars == chars_of(scalars@),
            bytes@ == encode_utf8(chars.subrange(from as int, i as int)),
        decreases to - i,
    {
        proof {
            assert(is_scalar(scalars@[i as int]));
            lemma_same_char(scalars@[i as int], scalars@[i as int]);
            let part = chars.subrange(from as int, i as int);
            let one = seq![chars[i as int]];
            assert(chars.subrange(from as int, i + 1) =~= part + one);
            lemma_encode_concat(part, one);
            lemma_encode_one(chars[i as int]);
        }
        push_scalar(&mut bytes, scalars[i]);
        i = i + 1;
    }
    bytes
}

/// `pattern` stands in `text` at index `i`.
pub open spec fn occurs_at(text: Seq<char>, pattern: Seq<char>, i: int) -> bool {
    &&& 0 <= i
    &&& i + pattern.len() <= text.len()
    &&& text.subrange(i, i + pattern.len()) == pattern
}

/// `pattern` stands somewhere in `text`.
pub open spec fn occurs_in(text: Seq<char>, pattern: Seq<char>) -> bool {
    exists|i: int| #[trigger] occurs_at(text, pattern, i)
}

/// The first index from `i` on at which `pattern` stands in `text`, or -1.
pub open spec fn first_from(text: Seq<char>, pattern: Seq<char>, i: int) -> int
    decreases text.len() - i + 1,
{
    if i + pattern.len() > text.len() {
        -1
    } else if occurs_at(text, pattern, i) {
        i
    } else {
        first_from(text, pattern, i + 1)
    }
}

/// The last index up to `i` at which `pattern` stands in `text`, or -1.
pub open spec fn last_up_to(text: Seq<char>, pattern: Seq<char>, i: int) -> int
    decreases i + 1,
{
    if i < 0 {
        -1
    } else if occurs_at(text, pattern, i) {
        i
    } else {
        last_up_to(text, pattern, i - 1)
    }
}

/// What `first_from` gives is an occurrence with none before it.
pub proof fn lemma_first_from(text: Seq<char>, pattern: Seq<char>, i: int)
    requires
        0 <= i,
    ensures
        first_from(text, pattern, i) == -1 || i <= first_from(text, pattern, i) && occurs_at(
            text,
            pattern,
            first_from(text, pattern, i),
        ),
        forall|j: int|
            i <= j && (first_from(text, pattern, i) == -1 || j < first_from(text, pattern, i))
                ==> !#[trigger] occurs_at(text, pattern, j),
    decreases text.len() - i + 1,
{
    if i + pattern.len() <= text.len() && !occurs_at(text, pattern, i) {
        lemma_first_from(text, pattern, i + 1);
    }
}

/// What `last_up_to` gives is an occurrence with none behind it.
pub proof fn lemma_last_up_to(text: Seq<char>, pattern: Seq<char>, i: int)
    ensures
        last_up_to(text, pattern, i) == -1 || last_up_to(text, pattern, i) <= i && occurs_at(
            text,
            pattern,
            last_up_to(text, pattern, i),
        ),
        forall|j: int|
            last_up_to(text, pattern, i) < j <= i ==> !#[trigger] occurs_at(text, pattern, j),
    decreases i + 1,
{
    if i >= 0 && !occurs_at(text, pattern, i) {
        lemma_last_up_to(text, pattern, i - 1);
    }
}

/// Whether `pattern` stands in `text` at index `at`.
pub fn matches_at(text: &[u32], pattern: &[u32], at: usize) -> (found: bool)
    requires
        all_scalars(text@),
        all_scalars(pattern@),
        at <= text@.len(),
    ensures
        found == occurs_at(chars_of(text@), chars_of(pattern@), at as int),
{
    let len: usize = text.len();
    if len - at < pattern.len() {
        return false;
    }
    let ghost a = chars_of(text@);
    let ghost b = chars_of(pattern@);
    let ghost window = a.subrange(at as int, at + b.len());
    let mut i: usize = 0;
    while i < pattern.len()
        invariant
            i <= pattern@.len(),
            len == text@.len(),
            at + pattern@.len() <= len,
            all_scalars(text@),
            all_scalars(pattern@),
            a == chars_of(text@),
            b == chars_of(pattern@),
            window == a.subrange(at as int, at + b.len()),
            forall|j: int| 0 <= j < i ==> window[j] == b[j],
        decreases pattern@.len() - i,
    {
        proof {
            assert(is_scalar(text@[at + i]) && is_scalar(pattern@[i as int]));
            lemma_same_char(text@[at + i], pattern@[i as int]);
        }
        if text[at + i] != pattern[i] {
            assert(window[i as int] != b[i as int]);
            return false;
        }
        i = i + 1;
    }
    assert(window =~= b);
    true
}

/// The first index from `from` on at which `pattern` stands in `text`.
pub fn find_from(text: &[u32], pattern: &[u32], from: usize) -> (result: Option<usize>)
    requires
        all_scalars(text@),
        all_scalars(pattern@),
        from <= text@.len(),
    ensures
        ({
            let first = first_from(chars_of(text@), chars_of(pattern@), from as int);
            &&& result is None <==> first == -1
            &&& result matches Some(index) ==> index == first && index + pattern@.len()
                <= text@.len() && from <= index
        }),
{
    if text.len() < pattern.len() {
        return None;
    }
    let last: usize = text.len() - pattern.len();
    if from > last {
        return None;
    }
    let mut i: usize = from;
    while i <= last
        invariant
            all_scalars(text@),
            all_scalars(pattern@),
            from <= i <= last + 1,
            from <= text@.len(),
            last + pattern@.len() == text@.len(),
            first_from(chars_of(text@), chars_of(pattern@), from as int) == first_from(
                chars_of(text@),
                chars_of(pattern@),
                i as int,
            ),
        decreases last + 1 - i,
    {
        if matches_at(text, pattern, i) {
            return Some(i);
        }
        if i == last {
            assert(first_from(chars_of(text@), chars_of(pattern@), i + 1) == -1);
            return None;
        }
        i = i + 1;
    }
    None
}

/// The last index at which `pattern` stands in `text`.
pub fn find_last(text: &[u32], pattern: &[u32]) -> (result: Option<usize>)
    requires
        all_scalars(text@),
        all_scalars(pattern@),
    ensures
        ({
            let last = last_up_to(
                chars_of(text@),
                chars_of(pattern@),
                text@.len() - pattern@.len(),
            );
            &&& result is None <==> last == -1
            &&& result matches Some(index) ==> index == last && index <= text@.len()
        }),
{
    if text.len() < pattern.len() {
        return None;
    }
    let mut i: usize = text.len() - pattern.len();
    loop
        invariant
            all_scalars(text@),
            all_scalars(pattern@),
            i + pattern@.len() <= text@.len(),
            last_up_to(chars_of(text@), chars_of(pattern@), text@.len() - pattern@.len())
                == last_up_to(chars_of(text@), chars_of(pattern@), i as int),
        decreases i,
    {
        if matches_at(text, pattern, i) {
            return Some(i);
        }
        if i == 0 {
            assert(last_up_to(chars_of(text@), chars_of(pattern@), -1) == -1);
            return None;
        }
        i = i - 1;
    }
}

/// The parts of `text` from `i` on between the occurrences of `separator`, which
/// are taken from left to right.
pub open spec fn split_from(text: Seq<char>, separator: Seq<char>, i: int) -> Seq<Seq<char>>
    decreases text.len() - i,
{
    let next = first_from(text, separator, i);
    if separator.len() == 0 || next < i || next + separator.len() > text.len() {
        seq![text.subrange(i, text.len() as int)]
    } else {
        seq![text.subrange(i, next)] + split_from(text, separator, next + separator.len())
    }
}

/// The parts of `text` between the occurrences of `separator`.
pub open spec fn split_parts(text: Seq<char>, separator: Seq<char>) -> Seq<Seq<char>> {
    split_from(text, separator, 0)
}

/// `parts` with `separator` between every two of them.
pub open spec fn joined_with(parts: Seq<Seq<char>>, separator: Seq<char>) -> Seq<char>
    decreases parts.len(),
{
    if parts.len() == 0 {
        Seq::empty()
    } else if parts.len() == 1 {
        parts[0]
    } else {
        joined_with(parts.drop_last(), separator) + separator + parts.last()
    }
}

/// Where each part of a split starts and ends.
pub fn split_bounds(text: &[u32], separator: &[u32]) -> (bounds: Vec<(usize, usize)>)
    requires
        all_scalars(text@),
        all_scalars(separator@),
        separator@.len() > 0,
    ensures
        bounds@.len() == split_parts(chars_of(text@), chars_of(separator@)).len(),
        bounds@.len() >= 1,
        bounds@.len() <= text@.len() + 1,
        forall|k: int|
            0 <= k < bounds@.len() ==> {
                &&& (#[trigger] bounds@[k]).0 <= bounds@[k].1 <= text@.len()
                &&& split_parts(chars_of(text@), chars_of(separator@))[k] == chars_of(
                    text@,
                ).subrange(bounds@[k].0 as int, bounds@[k].1 as int)
            },
{
    let ghost a = chars_of(text@);
    let ghost b = chars_of(separator@);
    let mut bounds: Vec<(usize, usize)> = Vec::new();
    let len: usize = text.len();
    let mut at: usize = 0;
    let ghost mut done: Seq<Seq<char>> = Seq::empty();
    assert(done + split_from(a, b, 0) =~= split_parts(a, b));
    loop
        invariant
            all_scalars(text@),
            all_scalars(separator@),
            separator@.len() > 0,
            a == chars_of(text@),
            b == chars_of(separator@),
            len == text@.len(),
            at <= len,
            bounds@.len() <= at,
            bounds@.len() == done.len(),
            done + split_from(a, b, at as int) == split_parts(a, b),
            forall|k: int|
                0 <= k < bounds@.len() ==> {
                    &&& (#[trigger] bounds@[k]).0 <= bounds@[k].1 <= text@.len()
                    &&& done[k] == a.subrange(bounds@[k].0 as int, bounds@[k].1 as int)
                },
        decreases text@.len() - at,
    {
        match find_from(text, separator, at) {
            None => {
                let ghost last = seq![a.subrange(at as int, a.len() as int)];
                assert(split_from(a, b, at as int) == last);
                bounds.push((at, text.len()));
                assert forall|k: int| 0 <= k < bounds@.len() implies {
                    &&& (#[trigger] bounds@[k]).0 <= bounds@[k].1 <= text@.len()
                    &&& split_parts(a, b)[k] == a.subrange(
                        bounds@[k].0 as int,
                        bounds@[k].1 as int,
                    )
                } by {
                    if k < done.len() {
                        assert((done + last)[k] == done[k]);
                    } else {
                        assert((done + last)[k] == last[0]);
                    }
                }
                return bounds;
            },
            Some(next) => {
                let ghost part = a.subrange(at as int, next as int);
                let ghost before = done;
                bounds.push((at, next));
                proof {
                    done = done.push(part);
                    let tail = split_from(a, b, next + b.len());
                    assert(split_from(a, b, at as int) == seq![part] + tail);
                    assert(before + (seq![part] + tail) =~= done + tail);
                    assert forall|k: int| 0 <= k < bounds@.len() implies {
                        &&& (#[trigger] bounds@[k]).0 <= bounds@[k].1 <= text@.len()
                        &&& done[k] == a.subrange(bounds@[k].0 as int, bounds@[k].1 as int)
                    } by {
                        if k < before.len() {
                            assert(done[k] == before[k]);
                        }
                    }
                }
                at = next + separator.len();
            },
        }
    }
}

/// The white space that is trimmed.
pub open spec fn is_space(c: char) -> bool {
    let v = c as u32;
    ||| 0x09 <= v <= 0x0d
    ||| v == 0x20
    ||| v == 0x85
    ||| v == 0xa0
    ||| v == 0x1680
    ||| 0x2000 <= v <= 0x200a
    ||| v == 0x2028
    ||| v == 0x2029
    ||| v == 0x202f
    ||| v == 0x205f
    ||| v == 0x3000
}

/// Whether a scalar value is white space that is trimmed.
pub fn is_aster_whitespace(value: u32) -> (space: bool)
    requires
        is_scalar(value),
    ensures
        space == is_space(value as char),
{
    (0x09 <= value && value <= 0x0d) || value == 0x20 || value == 0x85 || value == 0xa0 || value
        == 0x1680 || (0x2000 <= value && value <= 0x200a) || value == 0x2028 || value == 0x2029
        || value == 0x202f || value == 0x205f || value == 0x3000
}

/// `text` without the white space at its start.
pub open spec fn trimmed_start(text: Seq<char>) -> Seq<char>
    decreases text.len(),
{
    if text.len() > 0 && is_space(text[0]) {
        trimmed_start(text.drop_first())
    } else {
        text
    }
}

/// `text` without the white space at its end.
pub open spec fn trimmed_end(text: Seq<char>) -> Seq<char>
    decreases text.len(),
{
    if text.len() > 0 && is_space(text.last()) {
        trimmed_end(text.drop_last())
    } else {
        text
    }
}

/// Where the text starts that is left when white space at the start is dropped.
pub fn start_of_text(text: &[u32], to: usize) -> (from: usize)
    requires
        all_scalars(text@),
        to <= text@.len(),
    ensures
        from <= to,
        chars_of(text@).subrange(from as int, to as int) == trimmed_start(
            chars_of(text@).subrange(0, to as int),
        ),
{
    let ghost a = chars_of(text@);
    let mut from: usize = 0;
    while from < to && is_aster_whitespace(text[from])
        invariant
            from <= to <= text@.len(),
            all_scalars(text@),
            a == chars_of(text@),
            trimmed_start(a.subrange(0, to as int)) == trimmed_start(
                a.subrange(from as int, to as int),
            ),
        decreases to - from,
    {
        assert(a.subrange(from as int, to as int).drop_first() =~= a.subrange(
            from + 1,
            to as int,
        ));
        from = from + 1;
    }
    from
}

/// Where the text ends that is left when white space at the end is dropped.
pub fn end_of_text(text: &[u32], from: usize) -> (to: usize)
    requires
        all_scalars(text@),
        from <= text@.len(),
    ensures
        from <= to <= text@.len(),
        chars_of(text@).subrange(from as int, to as int) == trimmed_end(
            chars_of(text@).subrange(from as int, text@.len() as int),
        ),
{
    let ghost a = chars_of(text@);
    let mut to: usize = text.len();
    while from < to && is_aster_whitespace(text[to - 1])
        invariant
            from <= to <= text@.len(),
            all_scalars(text@),
            a == chars_of(text@),
            trimmed_end(a.subrange(from as int, text@.len() as int)) == trimmed_end(
                a.subrange(from as int, to as int),
            ),
        decreases to - from,
    {
        assert(a.subrange(from as int, to as int).drop_last() =~= a.subrange(
            from as int,
            to - 1,
        ));
        to = to - 1;
    }
    to
}

/// Trimming an already trimmed text changes nothing.
pub proof fn law_trimming_is_idempotent(text: Seq<char>)
    ensures
        trimmed_start(trimmed_start(text)) == trimmed_start(text),
        trimmed_end(trimmed_end(text)) == trimmed_end(text),
    decreases text.len(),
{
    if text.len() > 0 && is_space(text[0]) {
        law_trimming_is_idempotent(text.drop_first());
    }
    if text.len() > 0 && is_space(text.last()) {
        law_trimming_is_idempotent(text.drop_last());
    }
}

/// Joining the parts of a split with the separator gives the text back.
pub proof fn law_join_undoes_split(text: Seq<char>, separator: Seq<char>)
    requires
        separator.len() > 0,
    ensures
        joined_with(split_parts(text, separator), separator) == text,
{
    lemma_join_split_from(text, separator, 0);
    assert(text.subrange(0, text.len() as int) =~= text);
}

proof fn lemma_join_split_from(text: Seq<char>, separator: Seq<char>, i: int)
    requires
        separator.len() > 0,
        0 <= i <= text.len(),
    ensures
        split_from(text, separator, i).len() > 0,
        joined_with(split_from(text, separator, i), separator) == text.subrange(
            i,
            text.len() as int,
        ),
    decreases text.len() - i,
{
    let next = first_from(text, separator, i);
    lemma_first_from(text, separator, i);
    if next >= i {
        let j = next + separator.len();
        lemma_join_split_from(text, separator, j);
        let part = text.subrange(i, next);
        let tail = split_from(text, separator, j);
        lemma_join_front(part, tail, separator);
        assert(text.subrange(next, j) == separator);
        assert(part + separator + text.subrange(j, text.len() as int) =~= text.subrange(
            i,
            text.len() as int,
        )) by {
            assert(text.subrange(next, j) =~= separator);
            assert forall|k: int| 0 <= k < separator.len() implies #[trigger] separator[k]
                == text[next + k] by {
                assert(text.subrange(next, j)[k] == separator[k]);
            }
        }
    }
}

/// A join starts with its first part.
pub proof fn lemma_join_front(part: Seq<char>, tail: Seq<Seq<char>>, separator: Seq<char>)
    requires
        tail.len() > 0,
    ensures
        joined_with(seq![part] + tail, separator) == part + separator + joined_with(
            tail,
            separator,
        ),
    decreases tail.len(),
{
    let whole = seq![part] + tail;
    if tail.len() == 1 {
        assert(whole.drop_last() =~= seq![part]);
        assert(whole.last() == tail[0]);
        assert(joined_with(seq![part], separator) == part);
        assert(joined_with(tail, separator) == tail[0]);
    } else {
        lemma_join_front(part, tail.drop_last(), separator);
        assert(whole.drop_last() =~= seq![part] + tail.drop_last());
        assert(whole.last() == tail.last());
        assert(joined_with(whole, separator) =~= part + separator + joined_with(tail, separator));
    }
}

/// How often a separator is found from `i` on, from left to right and each time
/// behind the last.
pub open spec fn cuts_from(text: Seq<char>, separator: Seq<char>, i: int) -> int
    decreases text.len() - i,
{
    let next = first_from(text, separator, i);
    if separator.len() == 0 || next < i || next + separator.len() > text.len() {
        0
    } else {
        1 + cuts_from(text, separator, next + separator.len())
    }
}

proof fn lemma_parts_from(text: Seq<char>, separator: Seq<char>, i: int)
    requires
        separator.len() > 0,
        0 <= i <= text.len(),
    ensures
        split_from(text, separator, i).len() == cuts_from(text, separator, i) + 1,
        forall|k: int|
            0 <= k < split_from(text, separator, i).len() ==> !occurs_in(
                #[trigger] split_from(text, separator, i)[k],
                separator,
            ),
    decreases text.len() - i,
{
    let next = first_from(text, separator, i);
    lemma_first_from(text, separator, i);
    let parts = split_from(text, separator, i);
    let end = if next < i {
        text.len() as int
    } else {
        next
    };
    let part = text.subrange(i, end);
    assert(!occurs_in(part, separator)) by {
        if occurs_in(part, separator) {
            let j = choose|j: int| #[trigger] occurs_at(part, separator, j);
            assert(part.subrange(j, j + separator.len()) =~= text.subrange(
                i + j,
                i + j + separator.len(),
            ));
            assert(occurs_at(text, separator, i + j));
        }
    }
    if next >= i {
        let tail = split_from(text, separator, next + separator.len());
        lemma_parts_from(text, separator, next + separator.len());
        assert(parts =~= seq![part] + tail);
        assert forall|k: int| 0 <= k < parts.len() implies !occurs_in(
            #[trigger] parts[k],
            separator,
        ) by {
            if k > 0 {
                assert(parts[k] == tail[k - 1]);
            }
        }
    }
}

/// No part of a split holds the separator, and there is one part more than the
/// separator is found in the text.
pub proof fn law_parts_hold_no_separator(text: Seq<char>, separator: Seq<char>)
    requires
        separator.len() > 0,
    ensures
        split_parts(text, separator).len() == cuts_from(text, separator, 0) + 1,
        forall|k: int|
            0 <= k < split_parts(text, separator).len() ==> !occurs_in(
                #[trigger] split_parts(text, separator)[k],
                separator,
            ),
{
    lemma_parts_from(text, separator, 0);
}

} // verus!

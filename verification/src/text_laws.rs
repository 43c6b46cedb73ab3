//! What the operations on strings are for.

use vstd::bytes::{lemma_auto_spec_u64_to_from_le_bytes, spec_u64_from_le_bytes};
use vstd::prelude::*;
use vstd::utf8::*;

use crate::context::ExecutionContext;
use crate::meaning::{
    carries, carries_bytes, lemma_carries, lemma_carries_bytes, lemma_makes,
    lemma_payload_is_carried, makes, makes_bytes, only_looks, refuses,
};
use crate::scalars::{
    first_from, is_space, joined_with, last_up_to, lemma_encode_concat, lemma_encode_one,
    lemma_first_from, lemma_join_front, lemma_last_up_to, occurs_at, occurs_in, split_from,
    split_parts, trimmed_end, trimmed_start,
};
use crate::string::{
    aster_rt_string_byte_length, aster_rt_string_concat, aster_rt_string_concat_temporary,
    aster_rt_string_contains, aster_rt_string_decode_next, aster_rt_string_ends_with,
    aster_rt_string_eq, aster_rt_string_from_bool, aster_rt_string_from_bool_temporary,
    aster_rt_string_from_char, aster_rt_string_from_char_temporary, aster_rt_string_from_double,
    aster_rt_string_from_double_temporary, aster_rt_string_from_float,
    aster_rt_string_from_float_temporary, aster_rt_string_index_of, aster_rt_string_join,
    aster_rt_string_join_temporary, aster_rt_string_last_index_of, aster_rt_string_length,
    aster_rt_string_starts_with, decode_str, encode_str, parts_payload, scalar_report, text_of,
};
use crate::string_edit::{
    aster_rt_string_repeat, aster_rt_string_repeat_temporary, aster_rt_string_replace,
    aster_rt_string_replace_temporary, aster_rt_string_substring_from,
    aster_rt_string_substring_from_temporary, aster_rt_string_substring_range,
    aster_rt_string_substring_range_temporary, aster_rt_string_trim, aster_rt_string_trim_end,
    aster_rt_string_trim_end_temporary, aster_rt_string_trim_start,
    aster_rt_string_trim_start_temporary, aster_rt_string_trim_temporary, repeated,
};
use crate::utf8::rest;

verus! {

/// Unicode's white space.
pub open spec fn is_white(c: char) -> bool {
    ||| c == '\t' || c == '\n' || c == '\u{b}' || c == '\u{c}' || c == '\r' || c == ' '
    ||| c == '\u{85}' || c == '\u{a0}' || c == '\u{1680}'
    ||| '\u{2000}' <= c <= '\u{200a}'
    ||| c == '\u{2028}' || c == '\u{2029}' || c == '\u{202f}' || c == '\u{205f}'
    ||| c == '\u{3000}'
}

/// White space is what is trimmed.
pub proof fn lemma_white(c: char)
    ensures
        is_space(c) == is_white(c),
{
}

proof fn lemma_trimmed_start(text: Seq<char>) -> (from: int)
    ensures
        0 <= from <= text.len(),
        trimmed_start(text) == text.subrange(from, text.len() as int),
        forall|i: int| 0 <= i < from ==> is_white(#[trigger] text[i]),
        from < text.len() ==> !is_white(text[from]),
    decreases text.len(),
{
    if text.len() > 0 {
        lemma_white(text[0]);
    }
    if text.len() > 0 && is_space(text[0]) {
        let rest = text.drop_first();
        let from = lemma_trimmed_start(rest);
        assert(rest.subrange(from, rest.len() as int) =~= text.subrange(
            from + 1,
            text.len() as int,
        ));
        assert forall|i: int| 0 <= i < from + 1 implies is_white(#[trigger] text[i]) by {
            if i > 0 {
                assert(is_white(rest[i - 1]));
            }
        }
        if from < rest.len() {
            assert(rest[from] == text[from + 1]);
        }
        from + 1
    } else {
        assert(text.subrange(0, text.len() as int) =~= text);
        0
    }
}

proof fn lemma_trimmed_end(text: Seq<char>) -> (to: int)
    ensures
        0 <= to <= text.len(),
        trimmed_end(text) == text.subrange(0, to),
        forall|i: int| to <= i < text.len() ==> is_white(#[trigger] text[i]),
        0 < to ==> !is_white(text[to - 1]),
    decreases text.len(),
{
    if text.len() > 0 {
        lemma_white(text.last());
    }
    if text.len() > 0 && is_space(text.last()) {
        let rest = text.drop_last();
        let to = lemma_trimmed_end(rest);
        assert(rest.subrange(0, to) =~= text.subrange(0, to));
        assert forall|i: int| to <= i < text.len() implies is_white(#[trigger] text[i]) by {
            if i < rest.len() {
                assert(is_white(rest[i]));
            }
        }
        if 0 < to {
            assert(rest[to - 1] == text[to - 1]);
        }
        to
    } else {
        assert(text.subrange(0, text.len() as int) =~= text);
        text.len() as int
    }
}

/// `Trim` cuts white space off both ends, and all of it.
pub proof fn law_trim(
    context: Option<&mut ExecutionContext>,
    value: Option<&[u8]>,
    temporary: bool,
    result: Option<u64>,
    text: Seq<char>,
)
    requires
        context matches Some(c) && c.wf(),
        carries(value, text),
        temporary ==> call_ensures(aster_rt_string_trim_temporary, (context, value), result),
        !temporary ==> call_ensures(aster_rt_string_trim, (context, value), result),
    ensures
        exists|from: int, to: int|
            {
                &&& 0 <= from <= to <= text.len()
                &&& makes(
                    *context->0,
                    *final(context->0),
                    temporary,
                    #[trigger] text.subrange(from, to),
                    result,
                )
                &&& forall|i: int|
                    0 <= i < from || to <= i < text.len() ==> is_white(#[trigger] text[i])
                &&& from < to ==> !is_white(text[from]) && !is_white(text[to - 1])
            },
{
    lemma_carries(value, text);
    let to = lemma_trimmed_end(text);
    let head = text.subrange(0, to);
    let from = lemma_trimmed_start(head);
    assert(head.subrange(from, to) =~= text.subrange(from, to));
    assert forall|i: int| 0 <= i < from || to <= i < text.len() implies is_white(
        #[trigger] text[i],
    ) by {
        if i < from {
            assert(is_white(head[i]));
        }
    }
    if from < to {
        assert(head[from] == text[from]);
    }
    lemma_makes(
        *context->0,
        *final(context->0),
        temporary,
        encode_utf8(text.subrange(from, to)),
        result,
    );
}

/// `TrimStart` cuts white space off the start, and all of it.
pub proof fn law_trim_start(
    context: Option<&mut ExecutionContext>,
    value: Option<&[u8]>,
    temporary: bool,
    result: Option<u64>,
    text: Seq<char>,
)
    requires
        context matches Some(c) && c.wf(),
        carries(value, text),
        temporary ==> call_ensures(aster_rt_string_trim_start_temporary, (context, value), result),
        !temporary ==> call_ensures(aster_rt_string_trim_start, (context, value), result),
    ensures
        exists|from: int|
            {
                &&& 0 <= from <= text.len()
                &&& makes(
                    *context->0,
                    *final(context->0),
                    temporary,
                    #[trigger] text.skip(from),
                    result,
                )
                &&& forall|i: int| 0 <= i < from ==> is_white(#[trigger] text[i])
                &&& from < text.len() ==> !is_white(text[from])
            },
{
    lemma_carries(value, text);
    let from = lemma_trimmed_start(text);
    assert(text.skip(from) =~= text.subrange(from, text.len() as int));
    lemma_makes(
        *context->0,
        *final(context->0),
        temporary,
        encode_utf8(text.skip(from)),
        result,
    );
}

/// `TrimEnd` cuts white space off the end, and all of it.
pub proof fn law_trim_end(
    context: Option<&mut ExecutionContext>,
    value: Option<&[u8]>,
    temporary: bool,
    result: Option<u64>,
    text: Seq<char>,
)
    requires
        context matches Some(c) && c.wf(),
        carries(value, text),
        temporary ==> call_ensures(aster_rt_string_trim_end_temporary, (context, value), result),
        !temporary ==> call_ensures(aster_rt_string_trim_end, (context, value), result),
    ensures
        exists|to: int|
            {
                &&& 0 <= to <= text.len()
                &&& makes(
                    *context->0,
                    *final(context->0),
                    temporary,
                    #[trigger] text.take(to),
                    result,
                )
                &&& forall|i: int| to <= i < text.len() ==> is_white(#[trigger] text[i])
                &&& 0 < to ==> !is_white(text[to - 1])
            },
{
    lemma_carries(value, text);
    let to = lemma_trimmed_end(text);
    assert(text.take(to) =~= text.subrange(0, to));
    lemma_makes(*context->0, *final(context->0), temporary, encode_utf8(text.take(to)), result);
}

/// `Substring` copies the characters of a range that lies in the text, and refuses any
/// other range.
pub proof fn law_substring(
    context: Option<&mut ExecutionContext>,
    value: Option<&[u8]>,
    start: i32,
    length: i32,
    temporary: bool,
    result: Option<u64>,
    text: Seq<char>,
)
    requires
        context matches Some(c) && c.wf(),
        carries(value, text),
        temporary ==> call_ensures(
            aster_rt_string_substring_range_temporary,
            (context, value, start, length),
            result,
        ),
        !temporary ==> call_ensures(
            aster_rt_string_substring_range,
            (context, value, start, length),
            result,
        ),
    ensures
        0 <= start && 0 <= length && start + length <= text.len() && start + length <= i32::MAX
            ==> makes(
            *context->0,
            *final(context->0),
            temporary,
            text.skip(start as int).take(length as int),
            result,
        ),
        !(0 <= start && 0 <= length && start + length <= text.len() && start + length <= i32::MAX)
            ==> result is None && refuses(*context->0, *final(context->0)),
{
    lemma_carries(value, text);
    if 0 <= start && 0 <= length && start + length <= text.len() && start + length <= i32::MAX {
        let part = text.skip(start as int).take(length as int);
        assert(part =~= text.subrange(start as int, start + length));
        lemma_makes(*context->0, *final(context->0), temporary, encode_utf8(part), result);
    }
}

/// `Substring` without a length copies all characters from a place in the text on, and
/// refuses any other place.
pub proof fn law_substring_from(
    context: Option<&mut ExecutionContext>,
    value: Option<&[u8]>,
    start: i32,
    temporary: bool,
    result: Option<u64>,
    text: Seq<char>,
)
    requires
        context matches Some(c) && c.wf(),
        carries(value, text),
        temporary ==> call_ensures(
            aster_rt_string_substring_from_temporary,
            (context, value, start),
            result,
        ),
        !temporary ==> call_ensures(
            aster_rt_string_substring_from,
            (context, value, start),
            result,
        ),
    ensures
        0 <= start <= text.len() ==> makes(
            *context->0,
            *final(context->0),
            temporary,
            text.skip(start as int),
            result,
        ),
        !(0 <= start <= text.len()) ==> result is None && refuses(
            *context->0,
            *final(context->0),
        ),
{
    lemma_carries(value, text);
    if 0 <= start <= text.len() {
        let part = text.skip(start as int);
        assert(part =~= text.subrange(start as int, text.len() as int));
        lemma_makes(*context->0, *final(context->0), temporary, encode_utf8(part), result);
    }
}

/// A concatenation is one text and then the other.
pub proof fn law_concat(
    context: Option<&mut ExecutionContext>,
    left: Option<&[u8]>,
    right: Option<&[u8]>,
    temporary: bool,
    result: Option<u64>,
    a: Seq<char>,
    b: Seq<char>,
)
    requires
        context matches Some(c) && c.wf(),
        carries(left, a),
        carries(right, b),
        temporary ==> call_ensures(
            aster_rt_string_concat_temporary,
            (context, left, right),
            result,
        ),
        !temporary ==> call_ensures(aster_rt_string_concat, (context, left, right), result),
    ensures
        makes(*context->0, *final(context->0), temporary, a + b, result),
{
    lemma_carries(left, a);
    lemma_carries(right, b);
    lemma_encode_concat(a, b);
    lemma_makes(*context->0, *final(context->0), temporary, encode_utf8(a + b), result);
}

proof fn lemma_parts_payload(parts: Seq<Option<&[u8]>>, texts: Seq<Seq<char>>, n: int)
    requires
        0 <= n <= texts.len() <= parts.len(),
        forall|i: int| 0 <= i < n ==> carries(parts[i], #[trigger] texts[i]),
    ensures
        parts_payload(parts, n) == Some(encode_utf8(texts.take(n).flatten())),
    decreases n,
{
    let taken = texts.take(n);
    if n == 0 {
        assert(taken.flatten() =~= Seq::<char>::empty());
        assert(encode_utf8(taken.flatten()) =~= Seq::<u8>::empty());
    } else {
        lemma_parts_payload(parts, texts, n - 1);
        assert(carries(parts[n - 1], texts[n - 1]));
        lemma_carries(parts[n - 1], texts[n - 1]);
        let before = texts.take(n - 1);
        assert(taken.drop_last() =~= before);
        taken.lemma_flatten_and_flatten_alt_are_equivalent();
        before.lemma_flatten_and_flatten_alt_are_equivalent();
        assert(taken.flatten() =~= before.flatten() + texts[n - 1]);
        lemma_encode_concat(before.flatten(), texts[n - 1]);
    }
}

/// An interpolation is its parts, one behind the other.
pub proof fn law_join(
    context: Option<&mut ExecutionContext>,
    parts: Option<&[Option<&[u8]>]>,
    count: i32,
    temporary: bool,
    result: Option<u64>,
    texts: Seq<Seq<char>>,
)
    requires
        context matches Some(c) && c.wf(),
        parts matches Some(p) && p@.len() >= count,
        texts.len() == count,
        forall|i: int| 0 <= i < count ==> carries(parts->0@[i], #[trigger] texts[i]),
        temporary ==> call_ensures(
            aster_rt_string_join_temporary,
            (context, parts, count),
            result,
        ),
        !temporary ==> call_ensures(aster_rt_string_join, (context, parts, count), result),
    ensures
        makes(*context->0, *final(context->0), temporary, texts.flatten(), result),
{
    lemma_parts_payload(parts->0@, texts, count as int);
    assert(texts.take(count as int) =~= texts);
    lemma_makes(
        *context->0,
        *final(context->0),
        temporary,
        encode_utf8(texts.flatten()),
        result,
    );
}

proof fn lemma_repeated(text: Seq<char>, count: nat)
    ensures
        repeated(encode_utf8(text), count as int) == encode_utf8(
            Seq::new(count, |i: int| text).flatten(),
        ),
    decreases count,
{
    let copies = Seq::new(count, |i: int| text);
    if count == 0 {
        assert(copies.flatten() =~= Seq::<char>::empty());
        assert(encode_utf8(copies.flatten()) =~= Seq::<u8>::empty());
    } else {
        let fewer = Seq::new((count - 1) as nat, |i: int| text);
        lemma_repeated(text, (count - 1) as nat);
        assert(copies.drop_last() =~= fewer);
        copies.lemma_flatten_and_flatten_alt_are_equivalent();
        fewer.lemma_flatten_and_flatten_alt_are_equivalent();
        assert(copies.flatten() =~= fewer.flatten() + text);
        lemma_encode_concat(fewer.flatten(), text);
    }
}

/// `Repeat` puts copies of a text one behind the other, and refuses a negative number
/// of them, or more than memory can address.
pub proof fn law_repeat(
    context: Option<&mut ExecutionContext>,
    value: Option<&[u8]>,
    count: i32,
    temporary: bool,
    result: Option<u64>,
    text: Seq<char>,
)
    requires
        context matches Some(c) && c.wf(),
        carries(value, text),
        temporary ==> call_ensures(
            aster_rt_string_repeat_temporary,
            (context, value, count),
            result,
        ),
        !temporary ==> call_ensures(aster_rt_string_repeat, (context, value, count), result),
    ensures
        ({
            let possible = 0 <= count && encode_utf8(text).len() * count <= usize::MAX;
            &&& possible ==> makes(
                *context->0,
                *final(context->0),
                temporary,
                Seq::new(count as nat, |i: int| text).flatten(),
                result,
            )
            &&& !possible ==> result is None && refuses(*context->0, *final(context->0))
        }),
{
    lemma_carries(value, text);
    if 0 <= count && encode_utf8(text).len() * count <= usize::MAX {
        lemma_repeated(text, count as nat);
        lemma_makes(
            *context->0,
            *final(context->0),
            temporary,
            encode_utf8(Seq::new(count as nat, |i: int| text).flatten()),
            result,
        );
    }
}

/// A text of parts with another between every two of them.
pub open spec fn interleaved(parts: Seq<Seq<char>>, between: Seq<char>) -> Seq<char> {
    if parts.len() == 0 {
        Seq::empty()
    } else {
        parts[0] + parts.drop_first().map_values(|part: Seq<char>| between + part).flatten()
    }
}

/// A text stands in another at a place.
pub open spec fn stands_at(text: Seq<char>, sought: Seq<char>, i: int) -> bool {
    0 <= i <= text.len() && sought.is_prefix_of(text.skip(i))
}

/// These are the parts of a text between the occurrences of a separator, which are
/// taken from left to right: each part ends at the first separator behind the one
/// before it, and there is none in the last.
pub open spec fn are_parts(text: Seq<char>, separator: Seq<char>, parts: Seq<Seq<char>>) -> bool {
    &&& parts.len() > 0
    &&& text == interleaved(parts, separator)
    &&& forall|k: int, i: int|
        0 <= k < parts.len() - 1 && i < parts[k].len() ==> !#[trigger] stands_at(
            parts[k] + separator,
            separator,
            i,
        )
    &&& forall|i: int| !#[trigger] stands_at(parts.last(), separator, i)
}

pub proof fn lemma_stands_at(text: Seq<char>, sought: Seq<char>, i: int)
    ensures
        occurs_at(text, sought, i) == stands_at(text, sought, i),
{
    if 0 <= i && i + sought.len() <= text.len() {
        assert(text.skip(i).subrange(0, sought.len() as int) =~= text.subrange(
            i,
            i + sought.len(),
        ));
    }
}

pub proof fn lemma_interleaved(parts: Seq<Seq<char>>, between: Seq<char>)
    ensures
        joined_with(parts, between) == interleaved(parts, between),
    decreases parts.len(),
{
    if parts.len() == 1 {
        let none = parts.drop_first().map_values(|part: Seq<char>| between + part);
        assert(none.flatten() =~= Seq::<char>::empty());
        assert(parts[0] + none.flatten() =~= parts[0]);
    } else if parts.len() > 1 {
        let tail = parts.drop_first();
        lemma_interleaved(tail, between);
        assert(parts =~= seq![parts[0]] + tail);
        lemma_join_front(parts[0], tail, between);
        let pieces = tail.map_values(|part: Seq<char>| between + part);
        let rest = tail.drop_first().map_values(|part: Seq<char>| between + part);
        assert(pieces.drop_first() =~= rest);
        assert(pieces.first() == between + tail[0]);
        assert(parts[0] + between + (tail[0] + rest.flatten()) =~= parts[0] + ((between + tail[0])
            + rest.flatten()));
    }
}

proof fn lemma_window(text: Seq<char>, sought: Seq<char>, from: int, to: int, i: int)
    requires
        0 <= from <= to <= text.len(),
        stands_at(text.subrange(from, to), sought, i),
    ensures
        occurs_at(text, sought, from + i),
{
    let part = text.subrange(from, to);
    lemma_stands_at(part, sought, i);
    assert(part.subrange(i, i + sought.len()) =~= text.subrange(
        from + i,
        from + i + sought.len(),
    ));
}

/// Each of these parts ends at the first separator, and there is none in the last.
spec fn ends_at_separators(parts: Seq<Seq<char>>, separator: Seq<char>) -> bool {
    &&& forall|k: int, i: int|
        0 <= k < parts.len() - 1 && i < parts[k].len() ==> !#[trigger] stands_at(
            parts[k] + separator,
            separator,
            i,
        )
    &&& forall|i: int| !#[trigger] stands_at(parts.last(), separator, i)
}

proof fn lemma_split_parts(text: Seq<char>, separator: Seq<char>, at: int)
    requires
        separator.len() > 0,
        0 <= at <= text.len(),
    ensures
        split_from(text, separator, at).len() > 0,
        ends_at_separators(split_from(text, separator, at), separator),
    decreases text.len() - at,
{
    let next = first_from(text, separator, at);
    lemma_first_from(text, separator, at);
    let parts = split_from(text, separator, at);
    if next < at {
        let part = text.subrange(at, text.len() as int);
        assert(parts.last() == part);
        assert forall|i: int| !#[trigger] stands_at(part, separator, i) by {
            if stands_at(part, separator, i) {
                lemma_window(text, separator, at, text.len() as int, i);
            }
        }
    } else {
        let j = next + separator.len();
        let part = text.subrange(at, next);
        let tail = split_from(text, separator, j);
        lemma_split_parts(text, separator, j);
        assert(parts =~= seq![part] + tail);
        assert(text.subrange(next, j) == separator);
        assert(part + separator =~= text.subrange(at, j)) by {
            assert(text.subrange(at, j) =~= text.subrange(at, next) + text.subrange(next, j));
        }
        assert forall|k: int, i: int|
            0 <= k < parts.len() - 1 && i < parts[k].len() implies !#[trigger] stands_at(
            parts[k] + separator,
            separator,
            i,
        ) by {
            if k > 0 {
                assert(parts[k] == tail[k - 1]);
                assert(!stands_at(tail[k - 1] + separator, separator, i));
            } else if stands_at(part + separator, separator, i) {
                lemma_window(text, separator, at, j, i);
            }
        }
        assert(parts.last() == tail.last());
    }
}

/// Splitting gives the parts of a text.
pub proof fn lemma_are_parts(text: Seq<char>, separator: Seq<char>)
    requires
        separator.len() > 0,
    ensures
        are_parts(text, separator, split_parts(text, separator)),
{
    lemma_split_parts(text, separator, 0);
    crate::scalars::law_join_undoes_split(text, separator);
    lemma_interleaved(split_parts(text, separator), separator);
}

/// `Replace` puts one text in place of every occurrence of another, from left to right,
/// and leaves everything between them as it is. An empty text to replace is refused.
pub proof fn law_replace(
    context: Option<&mut ExecutionContext>,
    value: Option<&[u8]>,
    old_value: Option<&[u8]>,
    new_value: Option<&[u8]>,
    temporary: bool,
    result: Option<u64>,
    text: Seq<char>,
    sought: Seq<char>,
    other: Seq<char>,
)
    requires
        context matches Some(c) && c.wf(),
        carries(value, text),
        carries(old_value, sought),
        carries(new_value, other),
        temporary ==> call_ensures(
            aster_rt_string_replace_temporary,
            (context, value, old_value, new_value),
            result,
        ),
        !temporary ==> call_ensures(
            aster_rt_string_replace,
            (context, value, old_value, new_value),
            result,
        ),
    ensures
        sought.len() == 0 ==> result is None && refuses(*context->0, *final(context->0)),
        sought.len() > 0 ==> exists|parts: Seq<Seq<char>>|
            {
                let made = interleaved(parts, other);
                &&& #[trigger] are_parts(text, sought, parts)
                &&& encode_utf8(made).len() <= usize::MAX ==> makes(
                    *context->0,
                    *final(context->0),
                    temporary,
                    made,
                    result,
                )
                &&& encode_utf8(made).len() > usize::MAX ==> result is None && refuses(
                    *context->0,
                    *final(context->0),
                )
            },
{
    lemma_carries(value, text);
    lemma_carries(old_value, sought);
    lemma_carries(new_value, other);
    if sought.len() > 0 {
        let parts = split_parts(text, sought);
        lemma_are_parts(text, sought);
        lemma_interleaved(parts, other);
        let made = interleaved(parts, other);
        if encode_utf8(made).len() <= usize::MAX {
            lemma_makes(*context->0, *final(context->0), temporary, encode_utf8(made), result);
        }
    }
}

/// Two strings are equal just when they are the same text. What is no text equals
/// nothing.
pub proof fn law_equality(left: Option<&[u8]>, right: Option<&[u8]>, equal: i8)
    requires
        call_ensures(aster_rt_string_eq, (left, right), equal),
    ensures
        equal == 0 || equal == 1,
        forall|a: Seq<char>, b: Seq<char>|
            carries(left, a) && #[trigger] carries(right, b) && #[trigger] carries(left, a) ==> (
            equal == 1 <==> a == b),
        (forall|a: Seq<char>| !#[trigger] carries(left, a)) ==> equal == 0,
        (forall|b: Seq<char>| !#[trigger] carries(right, b)) ==> equal == 0,
{
    assert forall|a: Seq<char>, b: Seq<char>|
        carries(left, a) && #[trigger] carries(right, b) && #[trigger] carries(
            left,
            a,
        ) implies (equal == 1 <==> a == b) by {
        lemma_carries(left, a);
        lemma_carries(right, b);
        encode_utf8_decode_utf8(a);
        encode_utf8_decode_utf8(b);
    }
    lemma_payload_is_carried(left);
    lemma_payload_is_carried(right);
}

/// The length of a string is the number of its characters.
pub proof fn law_length(
    context: Option<&mut ExecutionContext>,
    value: Option<&[u8]>,
    length: i32,
    text: Seq<char>,
)
    requires
        context matches Some(c) && c.wf(),
        carries(value, text),
        call_ensures(aster_rt_string_length, (context, value), length),
    ensures
        text.len() <= i32::MAX ==> length == text.len() && only_looks(
            *context->0,
            *final(context->0),
        ),
        text.len() > i32::MAX ==> length == 0 && refuses(*context->0, *final(context->0)),
{
    lemma_carries(value, text);
}

/// The length of a string in bytes is that of its encoding.
pub proof fn law_byte_length(
    context: Option<&mut ExecutionContext>,
    value: Option<&[u8]>,
    length: i32,
    bytes: Seq<u8>,
)
    requires
        context matches Some(c) && c.wf(),
        carries_bytes(value, bytes),
        call_ensures(aster_rt_string_byte_length, (context, value), length),
    ensures
        bytes.len() <= i32::MAX ==> length == bytes.len() && only_looks(
            *context->0,
            *final(context->0),
        ),
        bytes.len() > i32::MAX ==> length == 0 && refuses(*context->0, *final(context->0)),
{
    lemma_carries_bytes(value, bytes);
}

/// A step through a text, from behind some of its characters, gives the next character
/// and the place behind it.
pub proof fn law_decode_next(
    context: Option<&mut ExecutionContext>,
    string: Option<&[u8]>,
    cursor: i32,
    scalar: Option<&mut i32>,
    next: Option<&mut i32>,
    decoded: i8,
    before: Seq<char>,
    character: char,
    behind: Seq<char>,
)
    requires
        context matches Some(c) && c.wf(),
        carries(string, before + seq![character] + behind),
        cursor == encode_utf8(before).len(),
        encode_utf8(before + seq![character]).len() <= i32::MAX,
        scalar is Some,
        next is Some,
        call_ensures(
            aster_rt_string_decode_next,
            (context, string, cursor, scalar, next),
            decoded,
        ),
    ensures
        decoded == 1,
        *final(scalar->0) == character as u32 as i32,
        *final(next->0) == encode_utf8(before + seq![character]).len(),
        only_looks(*context->0, *final(context->0)),
{
    let text = before + seq![character] + behind;
    let bytes = encode_utf8(text);
    let tail_text = seq![character] + behind;
    lemma_carries(string, text);
    lemma_carries_bytes(string, bytes);
    assert(text =~= before + tail_text);
    lemma_encode_concat(before, tail_text);
    lemma_encode_concat(before, seq![character]);
    lemma_encode_concat(seq![character], behind);
    lemma_encode_one(character);
    let tail = rest(bytes, cursor as int);
    assert(tail =~= encode_utf8(tail_text));
    encode_utf8_first_scalar(tail_text);
    encode_utf8_valid_utf8(tail_text);
    encode_utf8_decode_utf8(tail_text);
    char_is_scalar(character);
    assert(tail_text[0] == character);
    assert(tail.len() > 0);
    assert(valid_first_scalar(tail));
    assert(tail[0] == bytes[cursor as int]);
    assert(length_of_first_scalar(tail) <= tail.len());
    assert(scalar_report(bytes, cursor as int) is None);
    assert(decode_utf8(tail)[0] == decode_first_scalar(tail) as char);
    assert(length_of_first_scalar(tail) == encode_scalar(character as u32).len());
}

/// A text contains another just when it is something, then the other, then something.
pub proof fn law_contains(
    context: Option<&mut ExecutionContext>,
    value: Option<&[u8]>,
    pattern: Option<&[u8]>,
    result: i8,
    text: Seq<char>,
    sought: Seq<char>,
)
    requires
        context matches Some(c) && c.wf(),
        carries(value, text),
        carries(pattern, sought),
        call_ensures(aster_rt_string_contains, (context, value, pattern), result),
    ensures
        result == 0 || result == 1,
        result == 1 <==> exists|a: Seq<char>, b: Seq<char>| text == #[trigger] (a + sought + b),
        only_looks(*context->0, *final(context->0)),
{
    lemma_carries(value, text);
    lemma_carries(pattern, sought);
    if occurs_in(text, sought) {
        let i = choose|i: int| #[trigger] occurs_at(text, sought, i);
        let a = text.take(i);
        let b = text.skip(i + sought.len());
        assert(text.subrange(i, i + sought.len()) == sought);
        assert(text =~= a + sought + b) by {
            assert(text =~= a + text.subrange(i, i + sought.len()) + b);
        }
    }
    if exists|a: Seq<char>, b: Seq<char>| text == #[trigger] (a + sought + b) {
        let (a, b) = choose|a: Seq<char>, b: Seq<char>| text == #[trigger] (a + sought + b);
        assert(text.subrange(a.len() as int, (a.len() + sought.len()) as int) =~= sought);
        assert(occurs_at(text, sought, a.len() as int));
    }
}

/// A text starts with its prefixes, and with nothing else.
pub proof fn law_starts_with(
    context: Option<&mut ExecutionContext>,
    value: Option<&[u8]>,
    pattern: Option<&[u8]>,
    result: i8,
    text: Seq<char>,
    sought: Seq<char>,
)
    requires
        context matches Some(c) && c.wf(),
        carries(value, text),
        carries(pattern, sought),
        call_ensures(aster_rt_string_starts_with, (context, value, pattern), result),
    ensures
        result == 0 || result == 1,
        result == 1 <==> sought.is_prefix_of(text),
        only_looks(*context->0, *final(context->0)),
{
    lemma_carries(value, text);
    lemma_carries(pattern, sought);
}

/// A text ends with its suffixes, and with nothing else.
pub proof fn law_ends_with(
    context: Option<&mut ExecutionContext>,
    value: Option<&[u8]>,
    pattern: Option<&[u8]>,
    result: i8,
    text: Seq<char>,
    sought: Seq<char>,
)
    requires
        context matches Some(c) && c.wf(),
        carries(value, text),
        carries(pattern, sought),
        call_ensures(aster_rt_string_ends_with, (context, value, pattern), result),
    ensures
        result == 0 || result == 1,
        result == 1 <==> sought.is_suffix_of(text),
        only_looks(*context->0, *final(context->0)),
{
    lemma_carries(value, text);
    lemma_carries(pattern, sought);
}

/// `IndexOf` gives the first place at which a text stands in another, in characters,
/// or -1 where there is none.
pub proof fn law_index_of(
    context: Option<&mut ExecutionContext>,
    value: Option<&[u8]>,
    pattern: Option<&[u8]>,
    index: i32,
    text: Seq<char>,
    sought: Seq<char>,
)
    requires
        context matches Some(c) && c.wf(),
        carries(value, text),
        carries(pattern, sought),
        text.len() <= i32::MAX,
        call_ensures(aster_rt_string_index_of, (context, value, pattern), index),
    ensures
        index == -1 || stands_at(text, sought, index as int),
        forall|i: int| #[trigger] stands_at(text, sought, i) ==> 0 <= index <= i,
        only_looks(*context->0, *final(context->0)),
{
    lemma_carries(value, text);
    lemma_carries(pattern, sought);
    lemma_first_from(text, sought, 0);
    lemma_stands_at(text, sought, index as int);
    assert forall|i: int| #[trigger] stands_at(text, sought, i) implies 0 <= index <= i by {
        lemma_stands_at(text, sought, i);
        assert(occurs_at(text, sought, i));
    }
}

/// `LastIndexOf` gives the last place at which a text stands in another, in
/// characters, or -1 where there is none.
pub proof fn law_last_index_of(
    context: Option<&mut ExecutionContext>,
    value: Option<&[u8]>,
    pattern: Option<&[u8]>,
    index: i32,
    text: Seq<char>,
    sought: Seq<char>,
)
    requires
        context matches Some(c) && c.wf(),
        carries(value, text),
        carries(pattern, sought),
        text.len() <= i32::MAX,
        call_ensures(aster_rt_string_last_index_of, (context, value, pattern), index),
    ensures
        index == -1 || stands_at(text, sought, index as int),
        forall|i: int| #[trigger] stands_at(text, sought, i) ==> i <= index,
        only_looks(*context->0, *final(context->0)),
{
    lemma_carries(value, text);
    lemma_carries(pattern, sought);
    let end = text.len() - sought.len();
    lemma_last_up_to(text, sought, end);
    lemma_stands_at(text, sought, index as int);
    assert forall|i: int| #[trigger] stands_at(text, sought, i) implies i <= index by {
        lemma_stands_at(text, sought, i);
        assert(occurs_at(text, sought, i));
    }
}

/// A truth value becomes its name.
pub proof fn law_from_bool(
    context: Option<&mut ExecutionContext>,
    value: i8,
    temporary: bool,
    result: Option<u64>,
)
    requires
        context matches Some(c) && c.wf(),
        temporary ==> call_ensures(aster_rt_string_from_bool_temporary, (context, value), result),
        !temporary ==> call_ensures(aster_rt_string_from_bool, (context, value), result),
    ensures
        value == 0 ==> makes(
            *context->0,
            *final(context->0),
            temporary,
            seq!['f', 'a', 'l', 's', 'e'],
            result,
        ),
        value != 0 ==> makes(
            *context->0,
            *final(context->0),
            temporary,
            seq!['t', 'r', 'u', 'e'],
            result,
        ),
{
    reveal_strlit("true");
    reveal_strlit("false");
    assert("true"@ =~= seq!['t', 'r', 'u', 'e']);
    assert("false"@ =~= seq!['f', 'a', 'l', 's', 'e']);
    let text = if value != 0 {
        "true"@
    } else {
        "false"@
    };
    is_ascii_chars_encode_utf8(text);
    lemma_makes(*context->0, *final(context->0), temporary, encode_utf8(text), result);
}

/// A character becomes a text of it alone. What is no character is refused.
pub proof fn law_from_char(
    context: Option<&mut ExecutionContext>,
    value: u32,
    temporary: bool,
    result: Option<u64>,
)
    requires
        context matches Some(c) && c.wf(),
        temporary ==> call_ensures(aster_rt_string_from_char_temporary, (context, value), result),
        !temporary ==> call_ensures(aster_rt_string_from_char, (context, value), result),
    ensures
        value <= 0xd7ff || 0xe000 <= value <= 0x10ffff ==> makes(
            *context->0,
            *final(context->0),
            temporary,
            seq![value as char],
            result,
        ),
        !(value <= 0xd7ff || 0xe000 <= value <= 0x10ffff) ==> result is None && refuses(
            *context->0,
            *final(context->0),
        ),
{
    if value <= 0xd7ff || 0xe000 <= value <= 0x10ffff {
        lemma_encode_one(value as char);
        lemma_makes(
            *context->0,
            *final(context->0),
            temporary,
            encode_utf8(seq![value as char]),
            result,
        );
    }
}

/// The text of a floating point number is stored as the host wrote it, up to the size
/// of the buffer for it.
pub proof fn law_from_floating_point(
    context: Option<&mut ExecutionContext>,
    text: &[u8],
    double: bool,
    temporary: bool,
    result: Option<u64>,
)
    requires
        context matches Some(c) && c.wf(),
        double && temporary ==> call_ensures(
            aster_rt_string_from_double_temporary,
            (context, text),
            result,
        ),
        double && !temporary ==> call_ensures(
            aster_rt_string_from_double,
            (context, text),
            result,
        ),
        !double && temporary ==> call_ensures(
            aster_rt_string_from_float_temporary,
            (context, text),
            result,
        ),
        !double && !temporary ==> call_ensures(
            aster_rt_string_from_float,
            (context, text),
            result,
        ),
    ensures
        text@.len() <= 384 ==> makes_bytes(
            *context->0,
            *final(context->0),
            temporary,
            text@,
            result,
        ),
        text@.len() > 384 ==> result is None && refuses(*context->0, *final(context->0)),
{
    if text@.len() <= 384 {
        lemma_makes(*context->0, *final(context->0), temporary, text@, result);
    }
}

/// Text that crosses the boundary comes back as it was.
pub proof fn law_text_crosses_the_boundary(
    value: &str,
    block: Vec<u8>,
    argument: Option<&[u8]>,
    text: Option<String>,
)
    requires
        call_ensures(encode_str, (value,), block),
        argument matches Some(a) && a@ == block@,
        call_ensures(decode_str, (argument,), text),
        encode_utf8(value@).len() <= u64::MAX,
    ensures
        carries(argument, value@),
        text matches Some(t) && t@ == value@,
{
    let bytes = encode_utf8(value@);
    assert(crate::string_store::string_block(bytes) =~= crate::meaning::block_of(bytes));
    assert(block@.subrange(0, block@.len() as int) =~= block@);
    lemma_carries(argument, value@);
}

/// What carries no text is refused by every operation that takes one text.
pub proof fn law_what_is_no_text_is_refused(
    context: Option<&mut ExecutionContext>,
    value: Option<&[u8]>,
    result: Option<u64>,
    length: i32,
    start: i32,
    count: i32,
)
    requires
        context matches Some(c) && c.wf(),
        forall|text: Seq<char>| !#[trigger] carries(value, text),
        ({
            ||| call_ensures(aster_rt_string_trim, (context, value), result)
            ||| call_ensures(aster_rt_string_trim_start, (context, value), result)
            ||| call_ensures(aster_rt_string_trim_end, (context, value), result)
            ||| call_ensures(aster_rt_string_substring_from, (context, value, start), result)
            ||| call_ensures(
                aster_rt_string_substring_range,
                (context, value, start, count),
                result,
            )
            ||| call_ensures(aster_rt_string_repeat, (context, value, count), result)
            ||| call_ensures(aster_rt_string_concat, (context, value, value), result)
        }) || (result is None && call_ensures(aster_rt_string_length, (context, value), length)),
    ensures
        result is None,
        refuses(*context->0, *final(context->0)),
{
    lemma_payload_is_carried(value);
}

} // verus!

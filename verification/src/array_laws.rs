//! What arrays, objects and temporary scopes are for, and the texts that go into arrays
//! and come out of them.

use vstd::bytes::{
    lemma_auto_spec_u32_to_from_le_bytes, lemma_auto_spec_u64_to_from_le_bytes,
    spec_u32_from_le_bytes, spec_u32_to_le_bytes, spec_u64_to_le_bytes,
};
use vstd::prelude::*;
use vstd::utf8::*;

use crate::array::{
    array_bytes, aster_rt_array_element, aster_rt_array_length, aster_rt_array_new,
    aster_rt_array_new_temporary, AsterArray,
};
use crate::context::ExecutionContext;
use crate::meaning::{
    carries, holds, is_fresh, keeps, lemma_carries, lemma_makes, lemma_makes_list,
    lemma_says_bytes, lists_bytes, makes, makes_list, only_looks, refers_to, refuses, says_bytes,
};
use crate::memory::{bytes_at, zeroed};
use crate::object::{
    aster_rt_object_new, aster_rt_object_new_temporary, aster_rt_temporary_scope_enter,
    aster_rt_temporary_scope_leave,
};
use crate::scalars::split_parts;
use crate::string_edit::{
    aster_rt_string_concat_array, aster_rt_string_concat_array_temporary,
    aster_rt_string_from_chars, aster_rt_string_from_chars_temporary, aster_rt_string_join_array,
    aster_rt_string_join_array_temporary, aster_rt_string_to_chars,
    aster_rt_string_to_chars_temporary, encodings, lemma_encode_join,
};
use crate::string_split::{aster_rt_string_split, aster_rt_string_split_temporary};
use crate::string_store::string_at;
use crate::text_laws::{are_parts, interleaved, lemma_are_parts, lemma_interleaved};

verus! {

/// The bytes of texts.
pub open spec fn bytes_of_texts(texts: Seq<Seq<char>>) -> Seq<Seq<u8>> {
    texts.map_values(|text: Seq<char>| encode_utf8(text))
}

/// Splitting gives the parts of a text between the separators, in an array of texts. An
/// empty separator is refused.
pub proof fn law_split(
    temporary: bool,
    context: Option<&mut ExecutionContext>,
    value: Option<&[u8]>,
    separator: Option<&[u8]>,
    result: Option<AsterArray>,
    text: Seq<char>,
    gap: Seq<char>,
)
    requires
        context matches Some(c) && c.wf(),
        carries(value, text),
        carries(separator, gap),
        temporary ==> call_ensures(
            aster_rt_string_split_temporary,
            (context, value, separator),
            result,
        ),
        !temporary ==> call_ensures(aster_rt_string_split, (context, value, separator), result),
    ensures
        gap.len() == 0 ==> result is None && refuses(*context->0, *final(context->0)),
        gap.len() > 0 ==> exists|parts: Seq<Seq<char>>|
            {
                &&& #[trigger] are_parts(text, gap, parts)
                &&& parts.len() <= i32::MAX && 8 * parts.len() <= usize::MAX ==> makes_list(
                    *context->0,
                    *final(context->0),
                    temporary,
                    bytes_of_texts(parts),
                    result,
                )
                &&& parts.len() > i32::MAX || 8 * parts.len() > usize::MAX ==> result is None
                    && refuses(*context->0, *final(context->0))
            },
{
    lemma_carries(value, text);
    lemma_carries(separator, gap);
    if gap.len() > 0 {
        let parts = split_parts(text, gap);
        lemma_are_parts(text, gap);
        assert(bytes_of_texts(parts) =~= encodings(parts));
        if parts.len() <= i32::MAX && 8 * parts.len() <= usize::MAX {
            lemma_makes_list(
                *context->0,
                *final(context->0),
                temporary,
                bytes_of_texts(parts),
                result,
            );
        }
    }
}

/// An array that lists texts is read as those texts.
proof fn lemma_lists(m: Map<int, u8>, array: AsterArray, texts: Seq<Seq<char>>, n: int)
    requires
        lists_bytes(m, array, bytes_of_texts(texts)),
        0 <= n <= texts.len(),
    ensures
        array.strings_in(m, n) == Some(encodings(texts.take(n))),
    decreases n,
{
    let pieces = bytes_of_texts(texts);
    if n == 0 {
        assert(encodings(texts.take(0)) =~= Seq::<Seq<u8>>::empty());
    } else {
        lemma_lists(m, array, texts, n - 1);
        let i = n - 1;
        assert(pieces[i] == encode_utf8(texts[i]));
        assert(refers_to(m, array.data + 8 * i, pieces[i]));
        lemma_auto_spec_u64_to_from_le_bytes();
        let address = choose|address: u64|
            {
                &&& #[trigger] says_bytes(m, address, pieces[i])
                &&& holds(m, array.data + 8 * i, spec_u64_to_le_bytes(address))
                &&& address + 8 <= u64::MAX
                &&& pieces[i].len() <= usize::MAX
            };
        let found = bytes_at(m, array.slot(i), 8);
        let word = spec_u64_to_le_bytes(address);
        assert(i * 8 == 8 * i);
        assert forall|k: int| 0 <= k < 8 implies #[trigger] found[k] == word[k] by {}
        assert(found =~= word);
        encode_utf8_valid_utf8(texts[i]);
        lemma_says_bytes(m, address, pieces[i]);
        assert(array.string_in(m, i) == Some(pieces[i]));
        assert(encodings(texts.take(n)) =~= encodings(texts.take(i)).push(pieces[i]));
    }
}

/// Joining the texts of an array gives them in order, with the separator between every
/// two. Putting them together gives them with nothing between.
pub proof fn law_join_array(
    temporary: bool,
    context: Option<&mut ExecutionContext>,
    separator: Option<&[u8]>,
    values: Option<&AsterArray>,
    result: Option<u64>,
    gap: Seq<char>,
    texts: Seq<Seq<char>>,
)
    requires
        context matches Some(c) && c.wf() && c.error_text() is None,
        carries(separator, gap),
        values matches Some(array) && lists_bytes(
            context->0.mem(),
            *array,
            bytes_of_texts(texts),
        ),
        temporary ==> call_ensures(
            aster_rt_string_join_array_temporary,
            (context, separator, values),
            result,
        ),
        !temporary ==> call_ensures(
            aster_rt_string_join_array,
            (context, separator, values),
            result,
        ),
    ensures
        encode_utf8(interleaved(texts, gap)).len() <= usize::MAX ==> makes(
            *context->0,
            *final(context->0),
            temporary,
            interleaved(texts, gap),
            result,
        ),
        encode_utf8(interleaved(texts, gap)).len() > usize::MAX ==> result is None && refuses(
            *context->0,
            *final(context->0),
        ),
{
    lemma_carries(separator, gap);
    let n = texts.len() as int;
    lemma_lists(context->0.mem(), *values->0, texts, n);
    assert(texts.take(n) =~= texts);
    lemma_encode_join(texts, gap);
    lemma_interleaved(texts, gap);
    let made = encode_utf8(interleaved(texts, gap));
    if made.len() <= usize::MAX {
        lemma_makes(*context->0, *final(context->0), temporary, made, result);
    }
}

/// Putting the texts of an array together gives them one behind the other.
pub proof fn law_concat_array(
    temporary: bool,
    context: Option<&mut ExecutionContext>,
    values: Option<&AsterArray>,
    result: Option<u64>,
    texts: Seq<Seq<char>>,
)
    requires
        context matches Some(c) && c.wf() && c.error_text() is None,
        values matches Some(array) && lists_bytes(
            context->0.mem(),
            *array,
            bytes_of_texts(texts),
        ),
        temporary ==> call_ensures(
            aster_rt_string_concat_array_temporary,
            (context, values),
            result,
        ),
        !temporary ==> call_ensures(aster_rt_string_concat_array, (context, values), result),
    ensures
        encode_utf8(texts.flatten()).len() <= usize::MAX ==> makes(
            *context->0,
            *final(context->0),
            temporary,
            texts.flatten(),
            result,
        ),
        encode_utf8(texts.flatten()).len() > usize::MAX ==> result is None && refuses(
            *context->0,
            *final(context->0),
        ),
{
    let none = Seq::<char>::empty();
    let n = texts.len() as int;
    lemma_lists(context->0.mem(), *values->0, texts, n);
    assert(texts.take(n) =~= texts);
    lemma_encode_join(texts, none);
    lemma_interleaved(texts, none);
    assert(encode_utf8(none) =~= Seq::<u8>::empty());
    if n > 0 {
        let rest = texts.drop_first();
        assert(rest.map_values(|part: Seq<char>| none + part) =~= rest) by {
            assert forall|i: int| 0 <= i < rest.len() implies rest.map_values(
                |part: Seq<char>| none + part,
            )[i] == rest[i] by {
                assert(none + rest[i] =~= rest[i]);
            }
        }
        assert(texts.flatten() == texts.first() + rest.flatten());
    }
    assert(interleaved(texts, none) == texts.flatten());
    let made = encode_utf8(texts.flatten());
    if made.len() <= usize::MAX {
        lemma_makes(*context->0, *final(context->0), temporary, made, result);
    }
}

/// An array has an element for each character of a text, which holds its number.
pub open spec fn lists_chars(m: Map<int, u8>, array: AsterArray, text: Seq<char>) -> bool {
    &&& array.length == text.len()
    &&& array.element_size == 4
    &&& forall|i: int|
        0 <= i < text.len() ==> holds(
            m,
            array.data + 4 * i,
            spec_u32_to_le_bytes(#[trigger] text[i] as u32),
        )
}

/// The characters of a text are its characters in order, each in an element of its own.
pub proof fn law_to_chars(
    temporary: bool,
    context: Option<&mut ExecutionContext>,
    value: Option<&[u8]>,
    result: Option<AsterArray>,
    text: Seq<char>,
)
    requires
        context matches Some(c) && c.wf(),
        carries(value, text),
        temporary ==> call_ensures(aster_rt_string_to_chars_temporary, (context, value), result),
        !temporary ==> call_ensures(aster_rt_string_to_chars, (context, value), result),
    ensures
        result matches Some(array) ==> {
            &&& lists_chars(final(context->0).mem(), array, text)
            &&& keeps(context->0.mem(), final(context->0).mem())
            &&& final(context->0).error_text() == context->0.error_text()
        },
        result is None ==> final(context->0).error_text() is Some,
        text.len() > i32::MAX ==> result is None && refuses(*context->0, *final(context->0)),
{
    lemma_carries(value, text);
    let after = *final(context->0);
    let m = after.mem();
    if let Some(array) = result {
        lemma_auto_spec_u32_to_from_le_bytes();
        let content = crate::words::encoded_words(crate::string_edit::codes_of(text));
        let found = bytes_at(m, array.data as int, content.len());
        assert(found == content);
        assert forall|i: int| 0 <= i < text.len() implies holds(
            m,
            array.data + 4 * i,
            spec_u32_to_le_bytes(#[trigger] text[i] as u32),
        ) by {
            let word = spec_u32_to_le_bytes(text[i] as u32);
            assert forall|k: int| 0 <= k < 4 implies m[array.data + 4 * i + k] == #[trigger] word[k]
                by {
                assert((4 * i + k) / 4 == i && (4 * i + k) % 4 == k);
                assert(found[4 * i + k] == content[4 * i + k]);
            }
        }
    }
}

proof fn lemma_char_of_code(c: char)
    ensures
        is_scalar(c as u32),
        (c as u32) as char == c,
{
    char_is_scalar(c);
}

proof fn lemma_lists_chars(m: Map<int, u8>, array: AsterArray, text: Seq<char>, n: int)
    requires
        lists_chars(m, array, text),
        0 <= n <= text.len(),
    ensures
        array.chars_in(m, n) == Some(text.take(n)),
    decreases n,
{
    if n == 0 {
        assert(text.take(0) =~= Seq::<char>::empty());
    } else {
        lemma_lists_chars(m, array, text, n - 1);
        lemma_auto_spec_u32_to_from_le_bytes();
        let i = n - 1;
        let code = text[i] as u32;
        let found = bytes_at(m, array.slot(i), 4);
        let word = spec_u32_to_le_bytes(code);
        assert(holds(m, array.data + 4 * i, word));
        assert(i * 4 == 4 * i);
        assert forall|k: int| 0 <= k < 4 implies #[trigger] found[k] == word[k] by {}
        assert(found =~= word);
        assert(spec_u32_from_le_bytes(found) == code);
        lemma_char_of_code(text[i]);
        assert(text.take(n) =~= text.take(i).push(text[i]));
    }
}

/// Characters make the text of those characters.
pub proof fn law_from_chars(
    temporary: bool,
    context: Option<&mut ExecutionContext>,
    values: Option<&AsterArray>,
    result: Option<u64>,
    text: Seq<char>,
)
    requires
        context matches Some(c) && c.wf() && c.error_text() is None,
        values matches Some(array) && lists_chars(context->0.mem(), *array, text),
        temporary ==> call_ensures(
            aster_rt_string_from_chars_temporary,
            (context, values),
            result,
        ),
        !temporary ==> call_ensures(aster_rt_string_from_chars, (context, values), result),
    ensures
        encode_utf8(text).len() <= usize::MAX ==> makes(
            *context->0,
            *final(context->0),
            temporary,
            text,
            result,
        ),
        encode_utf8(text).len() > usize::MAX ==> result is None && refuses(
            *context->0,
            *final(context->0),
        ),
{
    let n = text.len() as int;
    lemma_lists_chars(context->0.mem(), *values->0, text, n);
    assert(text.take(n) =~= text);
    if encode_utf8(text).len() <= usize::MAX {
        lemma_makes(*context->0, *final(context->0), temporary, encode_utf8(text), result);
    }
}

/// A new array has as many elements as it was asked for, of the size that was asked for,
/// all of them zero, in memory of its own. A negative length is reported.
pub proof fn law_new_array(
    temporary: bool,
    context: Option<&mut ExecutionContext>,
    length: i32,
    element_size: i32,
    result: Option<AsterArray>,
)
    requires
        context matches Some(c) && c.wf(),
        element_size > 0,
        length * element_size <= usize::MAX,
        temporary ==> call_ensures(
            aster_rt_array_new_temporary,
            (context, length, element_size),
            result,
        ),
        !temporary ==> call_ensures(aster_rt_array_new, (context, length, element_size), result),
    ensures
        keeps(context->0.mem(), final(context->0).mem()),
        result is Some && length >= 0 ==> {
            let array = result->0;
            &&& array.length == length
            &&& array.element_size == element_size
            &&& array.data > 0
            &&& array.address > 0
            &&& holds(
                final(context->0).mem(),
                array.data as int,
                Seq::new((length * element_size) as nat, |i: int| 0u8),
            )
            &&& forall|k: int|
                array.data <= k < array.data + length * element_size
                    ==> !#[trigger] context->0.mem().contains_key(k)
            &&& final(context->0).error_text() == context->0.error_text()
        },
        result is None || length < 0 ==> final(context->0).error_text() is Some,
        length < 0 ==> (result matches Some(array) ==> array.length == 0),
        temporary && context->0.scopes().len() == 0 ==> result is None && refuses(
            *context->0,
            *final(context->0),
        ),
        final(context->0).region(!temporary) == context->0.region(!temporary),
        final(context->0).installed() == context->0.installed(),
        final(context->0).scopes() == context->0.scopes(),
{
    let before = *context->0;
    let after = *final(context->0);
    if let Some(array) = result {
        after.lemma_array_allocated(before, temporary, array, length, element_size as u32);
        if length >= 0 {
            let n = (length * element_size) as nat;
            let bytes = array_bytes(length, element_size as u32);
            assert(bytes >= n);
            let zeros = Seq::new(n, |i: int| 0u8);
            let found = bytes_at(after.mem(), array.data as int, bytes as nat);
            assert forall|i: int| 0 <= i < n implies after.mem()[array.data + i]
                == #[trigger] zeros[i] by {
                assert(found[i] == zeroed(bytes as nat)[i]);
            }
        }
    }
}

/// The address of an element is as many elements behind the first as its index says. An
/// index outside the array is reported.
pub proof fn law_array_element(
    context: Option<&mut ExecutionContext>,
    array: Option<&AsterArray>,
    index: i32,
    result: Option<u64>,
)
    requires
        context matches Some(c) && c.wf(),
        array matches Some(a) && a.data + a.length * a.element_size <= u64::MAX,
        call_ensures(aster_rt_array_element, (context, array, index), result),
    ensures
        0 <= index < array->0.length ==> {
            &&& only_looks(*context->0, *final(context->0))
            &&& result matches Some(address) && address == array->0.data + index
                * array->0.element_size
        },
        !(0 <= index < array->0.length) ==> refuses(*context->0, *final(context->0)),
{
    if 0 <= index < array->0.length {
        let a = *array->0;
        assert(0 <= index * a.element_size <= a.length * a.element_size) by (nonlinear_arith)
            requires
                0 <= index < a.length,
                0 <= a.element_size,
        ;
    }
}

/// The length of an array is how many elements it has.
pub proof fn law_array_length(
    context: Option<&mut ExecutionContext>,
    array: Option<&AsterArray>,
    result: i32,
)
    requires
        context is Some,
        array is Some,
        call_ensures(aster_rt_array_length, (context, array), result),
    ensures
        result == array->0.length,
        *final(context->0) == *context->0,
{
}

/// A new object is zeroed memory of its size, at least one byte, that nothing else has,
/// in the arena that was asked for.
pub proof fn law_new_object(
    temporary: bool,
    context: Option<&mut ExecutionContext>,
    size: i32,
    result: Option<u64>,
)
    requires
        context matches Some(c) && c.wf(),
        temporary ==> call_ensures(aster_rt_object_new_temporary, (context, size), result),
        !temporary ==> call_ensures(aster_rt_object_new, (context, size), result),
    ensures
        keeps(context->0.mem(), final(context->0).mem()),
        result matches Some(address) ==> {
            let bytes = if size < 1 {
                1
            } else {
                size as int
            };
            &&& address > 0
            &&& address as int % 8 == 0
            &&& is_fresh(*context->0, *final(context->0), temporary, address as int, bytes)
            &&& holds(
                final(context->0).mem(),
                address as int,
                Seq::new(bytes as nat, |i: int| 0u8),
            )
            &&& final(context->0).error_text() == context->0.error_text()
        },
        result is None ==> final(context->0).error_text() is Some,
        final(context->0).region(!temporary) == context->0.region(!temporary),
        final(context->0).installed() == context->0.installed(),
        final(context->0).scopes() == context->0.scopes(),
{
    let before = *context->0;
    let after = *final(context->0);
    if let Some(address) = result {
        let bytes = if size < 1 {
            1
        } else {
            size as int
        };
        after.lemma_allocated(before, temporary, address, bytes, 8);
        let zeros = Seq::new(bytes as nat, |i: int| 0u8);
        let found = bytes_at(after.mem(), address as int, bytes as nat);
        assert forall|i: int| 0 <= i < bytes implies after.mem()[address + i] == #[trigger] zeros[i]
            by {
            assert(found[i] == zeroed(bytes as nat)[i]);
        }
        assert forall|k: int| address <= k < address + bytes implies !before.mem().contains_key(k)
            && #[trigger] after.region(temporary).mem().contains_key(k) by {
            assert(after.mem().contains_key(k));
            assert(!before.mem().contains_key(k));
            assert(!before.region(!temporary).mem().contains_key(k));
        }
    }
}

/// Opening a scope changes no memory and remembers what is allocated.
pub proof fn law_enter_scope(context: Option<&mut ExecutionContext>)
    requires
        context matches Some(c) && c.wf() && c.temporary().next_mark() < u64::MAX,
        call_ensures(aster_rt_temporary_scope_enter, (context,), ()),
    ensures
        final(context->0).mem() == context->0.mem(),
        final(context->0).persistent() == context->0.persistent(),
        final(context->0).temporary().mem() == context->0.temporary().mem(),
        final(context->0).error_text() == context->0.error_text(),
        final(context->0).scopes().len() == context->0.scopes().len() + 1,
        final(context->0).scopes().last().allocated() == context->0.temporary().mem().dom(),
{
}

/// Leaving a scope gives back what was allocated in the temporary arena since it was
/// opened, and only that: what was allocated before keeps its bytes, and so does all
/// that lives longer. Without a scope that is reported.
pub proof fn law_leave_scope(context: Option<&mut ExecutionContext>)
    requires
        context matches Some(c) && c.wf() && (c.scopes().len() > 0 ==> c.scoped()),
        call_ensures(aster_rt_temporary_scope_leave, (context,), ()),
    ensures
        context->0.scopes().len() == 0 ==> refuses(*context->0, *final(context->0)),
        context->0.scopes().len() > 0 ==> {
            let kept = context->0.scopes().last().allocated();
            &&& final(context->0).persistent() == context->0.persistent()
            &&& final(context->0).error_text() == context->0.error_text()
            &&& final(context->0).scopes() == context->0.scopes().drop_last()
            &&& final(context->0).temporary().mem().dom() =~= kept
            &&& forall|k: int| #[trigger]
                kept.contains(k) ==> final(context->0).temporary().mem()[k]
                    == context->0.temporary().mem()[k]
        },
{
}

} // verus!

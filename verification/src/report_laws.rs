//! What programs are told when something cannot be done.

use vstd::prelude::*;

use crate::array::{
    aster_rt_array_element, aster_rt_array_new, aster_rt_array_new_temporary, AsterArray,
};
use crate::context::ExecutionContext;
use crate::dictionary::AsterDictionary;
use crate::dictionary_abi::aster_rt_dictionary_add;
use crate::list::{aster_rt_list_get, aster_rt_list_remove_at, AsterList};
use crate::list_laws::{has_items, names_type};
use crate::meaning::{carries, lemma_carries};
use crate::object::{
    aster_rt_object_new, aster_rt_object_new_temporary, aster_rt_temporary_scope_leave,
};
use crate::string::aster_rt_string_concat_temporary;
use crate::string_edit::{
    aster_rt_string_repeat, aster_rt_string_replace, aster_rt_string_substring_from,
    aster_rt_string_substring_range,
};
use crate::string_split::aster_rt_string_split;
use crate::text::{decimal, signed_decimal};

verus! {

/// An index outside an array is reported with the index and the length.
pub proof fn law_array_index_report(
    context: Option<&mut ExecutionContext>,
    array: Option<&AsterArray>,
    index: i32,
    result: Option<u64>,
)
    requires
        context matches Some(c) && c.wf() && c.error_text() is None,
        array matches Some(a) && !(0 <= index < a.length),
        call_ensures(aster_rt_array_element, (context, array, index), result),
    ensures
        final(context->0).error_text() == Some(
            "array index "@ + signed_decimal(index as int) + " is outside the valid range 0.."@
                + signed_decimal(array->0.length as int),
        ),
{
}

/// A negative length is reported with the length.
pub proof fn law_array_length_report(
    context: Option<&mut ExecutionContext>,
    length: i32,
    element_size: i32,
    result: Option<AsterArray>,
)
    requires
        context matches Some(c) && c.wf() && c.error_text() is None,
        length < 0,
        call_ensures(aster_rt_array_new, (context, length, element_size), result),
    ensures
        final(context->0).error_text() == Some(
            "array length cannot be negative: "@ + signed_decimal(length as int),
        ),
{
}

/// An index outside a list is reported with the operation, the index and the length.
pub proof fn law_list_index_report(
    context: Option<&mut ExecutionContext>,
    list: Option<&mut AsterList>,
    size: i32,
    align: i32,
    key: i64,
    index: i32,
    items: Seq<Seq<u8>>,
)
    requires
        context matches Some(c) && c.wf() && c.error_text() is None,
        list matches Some(l) && names_type(*l, size, align, key),
        has_items(*context->0, *list->0, items),
        call_ensures(aster_rt_list_remove_at, (context, list, size, align, key, index), ()),
    ensures
        index < 0 ==> final(context->0).error_text() == Some(
            "List."@ + "RemoveAt"@ + " index "@ + signed_decimal(index as int)
                + " is negative (length "@ + signed_decimal(items.len() as int) + ")"@,
        ),
        index >= items.len() ==> final(context->0).error_text() == Some(
            "List."@ + "RemoveAt"@ + " index "@ + signed_decimal(index as int)
                + " is out of bounds for length "@ + signed_decimal(items.len() as int),
        ),
{
}

/// The same where an element is read.
pub proof fn law_list_get_report(
    context: Option<&mut ExecutionContext>,
    list: Option<&AsterList>,
    size: i32,
    align: i32,
    key: i64,
    index: i32,
    destination: Option<&mut Vec<u8>>,
    items: Seq<Seq<u8>>,
)
    requires
        context matches Some(c) && c.wf() && c.error_text() is None,
        list matches Some(l) && names_type(*l, size, align, key),
        has_items(*context->0, *list->0, items),
        destination matches Some(d) && d@.len() >= size,
        call_ensures(aster_rt_list_get, (context, list, size, align, key, index, destination), ()),
    ensures
        index < 0 ==> final(context->0).error_text() == Some(
            "List."@ + "Get"@ + " index "@ + signed_decimal(index as int) + " is negative (length "@
                + signed_decimal(items.len() as int) + ")"@,
        ),
        index >= items.len() ==> final(context->0).error_text() == Some(
            "List."@ + "Get"@ + " index "@ + signed_decimal(index as int)
                + " is out of bounds for length "@ + signed_decimal(items.len() as int),
        ),
{
}

/// A start outside a text is reported with the start and the length in characters.
pub proof fn law_substring_from_report(
    context: Option<&mut ExecutionContext>,
    value: Option<&[u8]>,
    start: i32,
    result: Option<u64>,
    text: Seq<char>,
)
    requires
        context matches Some(c) && c.wf() && c.error_text() is None,
        carries(value, text),
        !(0 <= start <= text.len()),
        call_ensures(aster_rt_string_substring_from, (context, value, start), result),
    ensures
        final(context->0).error_text() == Some(
            "String.Substring start "@ + signed_decimal(start as int)
                + " is outside current length "@ + decimal(text.len()),
        ),
{
    lemma_carries(value, text);
    reveal_strlit("");
    assert("String.Substring start "@ + signed_decimal(start as int) + ""@
        =~= "String.Substring start "@ + signed_decimal(start as int));
}

/// A range outside a text is reported with the start, the length that was asked for and
/// the length in characters.
pub proof fn law_substring_report(
    context: Option<&mut ExecutionContext>,
    value: Option<&[u8]>,
    start: i32,
    length: i32,
    result: Option<u64>,
    text: Seq<char>,
)
    requires
        context matches Some(c) && c.wf() && c.error_text() is None,
        carries(value, text),
        start < 0 || length < 0 || start + length > text.len(),
        start + length <= i32::MAX,
        call_ensures(aster_rt_string_substring_range, (context, value, start, length), result),
    ensures
        final(context->0).error_text() == Some(
            "String.Substring start "@ + signed_decimal(start as int) + (", length "@
                + signed_decimal(length as int)) + " is outside current length "@ + decimal(
                text.len(),
            ),
        ),
{
    lemma_carries(value, text);
}

/// What cannot be split, replaced or repeated is reported as such.
pub proof fn law_edit_reports(
    split: Option<&mut ExecutionContext>,
    replace: Option<&mut ExecutionContext>,
    repeat: Option<&mut ExecutionContext>,
    value: Option<&[u8]>,
    empty: Option<&[u8]>,
    other: Option<&[u8]>,
    count: i32,
    text: Seq<char>,
    by: Seq<char>,
    parts: Option<AsterArray>,
    replaced: Option<u64>,
    repeated: Option<u64>,
)
    requires
        split matches Some(c) && c.wf() && c.error_text() is None,
        replace matches Some(c) && c.wf() && c.error_text() is None,
        repeat matches Some(c) && c.wf() && c.error_text() is None,
        carries(value, text),
        carries(empty, Seq::empty()),
        carries(other, by),
        count < 0,
        call_ensures(aster_rt_string_split, (split, value, empty), parts),
        call_ensures(aster_rt_string_replace, (replace, value, empty, other), replaced),
        call_ensures(aster_rt_string_repeat, (repeat, value, count), repeated),
    ensures
        final(split->0).error_text() == Some("String.Split requires a non-empty separator"@),
        final(replace->0).error_text() == Some("String.Replace requires a non-empty oldValue"@),
        final(repeat->0).error_text() == Some("String.Repeat requires a nonnegative count"@),
{
    lemma_carries(value, text);
    lemma_carries(empty, Seq::empty());
    lemma_carries(other, by);
}

/// What needs a scope is reported where there is none.
pub proof fn law_scope_reports(
    object: Option<&mut ExecutionContext>,
    array: Option<&mut ExecutionContext>,
    string: Option<&mut ExecutionContext>,
    leave: Option<&mut ExecutionContext>,
    size: i32,
    length: i32,
    value: Option<&[u8]>,
    text: Seq<char>,
    address: Option<u64>,
    made: Option<AsterArray>,
    joined: Option<u64>,
)
    requires
        object matches Some(c) && c.wf() && c.error_text() is None && c.scopes().len() == 0,
        array matches Some(c) && c.wf() && c.error_text() is None && c.scopes().len() == 0,
        string matches Some(c) && c.wf() && c.error_text() is None && c.scopes().len() == 0,
        leave matches Some(c) && c.wf() && c.error_text() is None && c.scopes().len() == 0,
        carries(value, text),
        call_ensures(aster_rt_object_new_temporary, (object, size), address),
        call_ensures(aster_rt_array_new_temporary, (array, length, size), made),
        call_ensures(aster_rt_string_concat_temporary, (string, value, value), joined),
        call_ensures(aster_rt_temporary_scope_leave, (leave,), ()),
    ensures
        final(object->0).error_text() == Some(
            "temporary object allocation requires an active temporary scope"@,
        ),
        final(array->0).error_text() == Some(
            "temporary array allocation requires an active temporary scope"@,
        ),
        final(string->0).error_text() == Some(
            "temporary string allocation requires an active temporary scope"@,
        ),
        final(leave->0).error_text() == Some("temporary scope leave has no matching enter"@),
{
    lemma_carries(value, text);
}

/// A request that would exceed the memory limit is reported as such.
pub proof fn law_memory_limit_report(
    context: Option<&mut ExecutionContext>,
    size: i32,
    result: Option<u64>,
)
    requires
        context matches Some(c) && c.wf() && c.error_text() is None,
        size > 0,
        call_ensures(aster_rt_object_new, (context, size), result),
        context->0.persistent().needs_page(size as int, 8),
        context->0.persistent().shape().reserved()
            + context->0.persistent().shape().fresh_capacity(size as int) <= usize::MAX,
        context->0.persistent().shape().reserved() + context->0.temporary().shape().reserved()
            + context->0.persistent().shape().fresh_capacity(size as int)
            > context->0.configuration().memory_limit,
        context->0.persistent().shape().fresh_capacity(size as int) >= 0,
    ensures
        result is None,
        final(context->0).error_text() == Some("allocation exceeds the execution memory limit"@),
{
}

/// What is no dictionary is reported with the operation.
pub proof fn law_null_dictionary_report(
    context: Option<&mut ExecutionContext>,
    key_kind: i32,
    key_size: i32,
    key_align: i32,
    key_type_key: i64,
    value_size: i32,
    value_align: i32,
    value_type_key: i64,
    key: Option<&[u8]>,
    value: Option<&[u8]>,
    result: i8,
)
    requires
        context matches Some(c) && c.wf() && c.error_text() is None,
        1 <= key_kind <= 11,
        value is Some,
        call_ensures(
            aster_rt_dictionary_add,
            (
                context,
                None::<&mut AsterDictionary>,
                key_kind,
                key_size,
                key_align,
                key_type_key,
                value_size,
                value_align,
                value_type_key,
                key,
                value,
            ),
            result,
        ),
    ensures
        result == 0,
        final(context->0).error_text() == Some(
            "Dictionary."@ + "Add"@ + " received a null Dictionary"@,
        ),
{
}

} // verus!

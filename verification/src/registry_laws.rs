//! What the table of exported functions is for: a name leads to the function that the host
//! said, and functions that belong together are called alike.

use vstd::prelude::*;

use crate::registry::{
    dictionary_entries, edit_entries, entries, fault_entries, io_entries, list_entries,
    memory_entries, narrow_parse_entries, parse_entries, path_entries, runtime_entries,
    runtime_functions, service_entries, string_entries, text_entries, RuntimeEntry,
    RuntimeFunction, RuntimeType,
};

verus! {

/// One function makes something that lives as long as the context, and the other the same
/// until its scope is left: the name says so, and they are called alike.
pub open spec fn is_temporary_variant(lasting: RuntimeEntry, temporary: RuntimeEntry) -> bool {
    &&& temporary.name =~= lasting.name + "_temporary"@
    &&& temporary.parameters =~= lasting.parameters
    &&& temporary.result == lasting.result
}

/// A function that fills an option with what it reads from a text: the context, the text
/// and the destination, then the size, the two tags and the place.
pub open spec fn fills_an_option(entry: RuntimeEntry) -> bool {
    &&& entry.result is None
    &&& entry.parameters =~= seq![
        RuntimeType::Pointer,
        RuntimeType::Pointer,
        RuntimeType::Pointer,
        RuntimeType::I32,
        RuntimeType::I32,
        RuntimeType::I32,
        RuntimeType::I32,
    ]
}

/// A function that fills a result: it ends with the destination, the size, the two tags,
/// the four places and the tags of the categories.
pub open spec fn fills_a_result(entry: RuntimeEntry) -> bool {
    let n = entry.parameters.len() as int;
    &&& entry.result is None
    &&& n >= 9
    &&& entry.parameters.skip(n - 9) =~= seq![
        RuntimeType::Pointer,
        RuntimeType::I32,
        RuntimeType::I32,
        RuntimeType::I32,
        RuntimeType::I32,
        RuntimeType::I32,
        RuntimeType::I32,
        RuntimeType::I32,
        RuntimeType::Pointer,
    ]
}

/// A function on a dictionary: the context and the dictionary, then its types, then what
/// the function is about.
pub open spec fn is_about_a_dictionary(entry: RuntimeEntry) -> bool {
    &&& entry.parameters.len() >= 9
    &&& entry.parameters.take(9) =~= seq![
        RuntimeType::Pointer,
        RuntimeType::Pointer,
        RuntimeType::I32,
        RuntimeType::I32,
        RuntimeType::I32,
        RuntimeType::I64,
        RuntimeType::I32,
        RuntimeType::I32,
        RuntimeType::I64,
    ]
}

/// A function on numbers of one width, and the same on those of the other.
pub open spec fn are_alike_but_for_width(float: RuntimeEntry, double: RuntimeEntry) -> bool {
    let wide = |t: RuntimeType|
        if t == RuntimeType::F32 {
            RuntimeType::F64
        } else {
            t
        };
    &&& double.parameters =~= float.parameters.map_values(wide)
    &&& match (float.result, double.result) {
        (Some(a), Some(b)) => b == wide(a),
        (None, None) => true,
        _ => false,
    }
    &&& forall|k: int|
        0 <= k < float.parameters.len() ==> #[trigger] float.parameters[k] != RuntimeType::F64
}

/// The array and object functions that belong together are called alike.
pub proof fn law_memory_signatures()
    ensures
        is_temporary_variant(memory_entries()[1], memory_entries()[2]),
        is_temporary_variant(memory_entries()[3], memory_entries()[4]),
{
    reveal_strlit("_temporary");
    reveal_strlit("aster_rt_array_new");
    reveal_strlit("aster_rt_array_new_temporary");
    assert("aster_rt_array_new_temporary"@ =~= "aster_rt_array_new"@ + "_temporary"@);
    reveal_strlit("aster_rt_object_new");
    reveal_strlit("aster_rt_object_new_temporary");
    assert("aster_rt_object_new_temporary"@ =~= "aster_rt_object_new"@ + "_temporary"@);
}

/// The list functions that belong together are called alike.
pub proof fn law_list_signatures()
    ensures
        is_temporary_variant(list_entries()[0], list_entries()[1]),
{
    reveal_strlit("_temporary");
    reveal_strlit("aster_rt_list_new");
    reveal_strlit("aster_rt_list_new_temporary");
    assert("aster_rt_list_new_temporary"@ =~= "aster_rt_list_new"@ + "_temporary"@);
}

/// The string functions that belong together are called alike.
pub proof fn law_string_signatures()
    ensures
        is_temporary_variant(string_entries()[1], string_entries()[2]),
        is_temporary_variant(string_entries()[10], string_entries()[11]),
        is_temporary_variant(string_entries()[12], string_entries()[13]),
{
    reveal_strlit("_temporary");
    reveal_strlit("aster_rt_string_concat");
    reveal_strlit("aster_rt_string_concat_temporary");
    assert("aster_rt_string_concat_temporary"@ =~= "aster_rt_string_concat"@ + "_temporary"@);
    reveal_strlit("aster_rt_string_substring_from");
    reveal_strlit("aster_rt_string_substring_from_temporary");
    assert("aster_rt_string_substring_from_temporary"@ =~= "aster_rt_string_substring_from"@ + "_temporary"@);
    reveal_strlit("aster_rt_string_substring_range");
    reveal_strlit("aster_rt_string_substring_range_temporary");
    assert("aster_rt_string_substring_range_temporary"@ =~= "aster_rt_string_substring_range"@ + "_temporary"@);
}

/// The formatting functions that belong together are called alike.
pub proof fn law_text_signatures()
    ensures
        is_temporary_variant(text_entries()[0], text_entries()[1]),
        is_temporary_variant(text_entries()[2], text_entries()[3]),
        is_temporary_variant(text_entries()[4], text_entries()[5]),
        is_temporary_variant(text_entries()[6], text_entries()[7]),
        are_alike_but_for_width(text_entries()[6], text_entries()[4]),
        is_temporary_variant(text_entries()[8], text_entries()[9]),
        is_temporary_variant(text_entries()[10], text_entries()[11]),
        is_temporary_variant(text_entries()[12], text_entries()[13]),
{
    reveal_strlit("_temporary");
    reveal_strlit("aster_rt_string_from_long");
    reveal_strlit("aster_rt_string_from_long_temporary");
    assert("aster_rt_string_from_long_temporary"@ =~= "aster_rt_string_from_long"@ + "_temporary"@);
    reveal_strlit("aster_rt_string_from_ulong");
    reveal_strlit("aster_rt_string_from_ulong_temporary");
    assert("aster_rt_string_from_ulong_temporary"@ =~= "aster_rt_string_from_ulong"@ + "_temporary"@);
    reveal_strlit("aster_rt_string_from_double");
    reveal_strlit("aster_rt_string_from_double_temporary");
    assert("aster_rt_string_from_double_temporary"@ =~= "aster_rt_string_from_double"@ + "_temporary"@);
    reveal_strlit("aster_rt_string_from_float");
    reveal_strlit("aster_rt_string_from_float_temporary");
    assert("aster_rt_string_from_float_temporary"@ =~= "aster_rt_string_from_float"@ + "_temporary"@);
    reveal_strlit("aster_rt_string_from_bool");
    reveal_strlit("aster_rt_string_from_bool_temporary");
    assert("aster_rt_string_from_bool_temporary"@ =~= "aster_rt_string_from_bool"@ + "_temporary"@);
    reveal_strlit("aster_rt_string_from_char");
    reveal_strlit("aster_rt_string_from_char_temporary");
    assert("aster_rt_string_from_char_temporary"@ =~= "aster_rt_string_from_char"@ + "_temporary"@);
    reveal_strlit("aster_rt_string_join");
    reveal_strlit("aster_rt_string_join_temporary");
    assert("aster_rt_string_join_temporary"@ =~= "aster_rt_string_join"@ + "_temporary"@);
}

/// The parsing functions that belong together are called alike.
pub proof fn law_parse_signatures()
    ensures
        fills_an_option(parse_entries()[0]),
        fills_an_option(parse_entries()[1]),
        fills_an_option(parse_entries()[2]),
        fills_an_option(parse_entries()[3]),
        fills_an_option(parse_entries()[4]),
        fills_an_option(parse_entries()[5]),
        fills_an_option(parse_entries()[6]),
{
}

/// The input and output functions that belong together are called alike.
pub proof fn law_io_signatures()
    ensures
        is_temporary_variant(io_entries()[2], io_entries()[3]),
        is_temporary_variant(io_entries()[4], io_entries()[5]),
        fills_a_result(io_entries()[4]),
        fills_a_result(io_entries()[5]),
        fills_a_result(io_entries()[6]),
        is_temporary_variant(io_entries()[7], io_entries()[8]),
        fills_a_result(io_entries()[7]),
        fills_a_result(io_entries()[8]),
{
    reveal_strlit("_temporary");
    reveal_strlit("aster_rt_io_read_line");
    reveal_strlit("aster_rt_io_read_line_temporary");
    assert("aster_rt_io_read_line_temporary"@ =~= "aster_rt_io_read_line"@ + "_temporary"@);
    reveal_strlit("aster_rt_io_read_all_text");
    reveal_strlit("aster_rt_io_read_all_text_temporary");
    assert("aster_rt_io_read_all_text_temporary"@ =~= "aster_rt_io_read_all_text"@ + "_temporary"@);
    reveal_strlit("aster_rt_io_list_files");
    reveal_strlit("aster_rt_io_list_files_temporary");
    assert("aster_rt_io_list_files_temporary"@ =~= "aster_rt_io_list_files"@ + "_temporary"@);
}

/// The dictionary functions that belong together are called alike.
pub proof fn law_dictionary_signatures()
    ensures
        is_temporary_variant(dictionary_entries()[0], dictionary_entries()[1]),
        is_about_a_dictionary(dictionary_entries()[3]),
        is_about_a_dictionary(dictionary_entries()[4]),
        is_about_a_dictionary(dictionary_entries()[5]),
        is_about_a_dictionary(dictionary_entries()[6]),
        is_about_a_dictionary(dictionary_entries()[7]),
        is_about_a_dictionary(dictionary_entries()[8]),
{
    reveal_strlit("_temporary");
    reveal_strlit("aster_rt_dictionary_new");
    reveal_strlit("aster_rt_dictionary_new_temporary");
    assert("aster_rt_dictionary_new_temporary"@ =~= "aster_rt_dictionary_new"@ + "_temporary"@);
}

/// The editing functions that belong together are called alike.
pub proof fn law_edit_signatures()
    ensures
        is_temporary_variant(edit_entries()[1], edit_entries()[2]),
        is_temporary_variant(edit_entries()[3], edit_entries()[4]),
        is_temporary_variant(edit_entries()[5], edit_entries()[6]),
        is_temporary_variant(edit_entries()[7], edit_entries()[8]),
        is_temporary_variant(edit_entries()[9], edit_entries()[10]),
        is_temporary_variant(edit_entries()[11], edit_entries()[12]),
        is_temporary_variant(edit_entries()[13], edit_entries()[14]),
        is_temporary_variant(edit_entries()[15], edit_entries()[16]),
        is_temporary_variant(edit_entries()[17], edit_entries()[18]),
        is_temporary_variant(edit_entries()[19], edit_entries()[20]),
{
    reveal_strlit("_temporary");
    reveal_strlit("aster_rt_string_trim");
    reveal_strlit("aster_rt_string_trim_temporary");
    assert("aster_rt_string_trim_temporary"@ =~= "aster_rt_string_trim"@ + "_temporary"@);
    reveal_strlit("aster_rt_string_trim_start");
    reveal_strlit("aster_rt_string_trim_start_temporary");
    assert("aster_rt_string_trim_start_temporary"@ =~= "aster_rt_string_trim_start"@ + "_temporary"@);
    reveal_strlit("aster_rt_string_trim_end");
    reveal_strlit("aster_rt_string_trim_end_temporary");
    assert("aster_rt_string_trim_end_temporary"@ =~= "aster_rt_string_trim_end"@ + "_temporary"@);
    reveal_strlit("aster_rt_string_join_array");
    reveal_strlit("aster_rt_string_join_array_temporary");
    assert("aster_rt_string_join_array_temporary"@ =~= "aster_rt_string_join_array"@ + "_temporary"@);
    reveal_strlit("aster_rt_string_concat_array");
    reveal_strlit("aster_rt_string_concat_array_temporary");
    assert("aster_rt_string_concat_array_temporary"@ =~= "aster_rt_string_concat_array"@ + "_temporary"@);
    reveal_strlit("aster_rt_string_repeat");
    reveal_strlit("aster_rt_string_repeat_temporary");
    assert("aster_rt_string_repeat_temporary"@ =~= "aster_rt_string_repeat"@ + "_temporary"@);
    reveal_strlit("aster_rt_string_to_chars");
    reveal_strlit("aster_rt_string_to_chars_temporary");
    assert("aster_rt_string_to_chars_temporary"@ =~= "aster_rt_string_to_chars"@ + "_temporary"@);
    reveal_strlit("aster_rt_string_from_chars");
    reveal_strlit("aster_rt_string_from_chars_temporary");
    assert("aster_rt_string_from_chars_temporary"@ =~= "aster_rt_string_from_chars"@ + "_temporary"@);
    reveal_strlit("aster_rt_string_replace");
    reveal_strlit("aster_rt_string_replace_temporary");
    assert("aster_rt_string_replace_temporary"@ =~= "aster_rt_string_replace"@ + "_temporary"@);
    reveal_strlit("aster_rt_string_split");
    reveal_strlit("aster_rt_string_split_temporary");
    assert("aster_rt_string_split_temporary"@ =~= "aster_rt_string_split"@ + "_temporary"@);
}

/// The further parsing functions that belong together are called alike.
pub proof fn law_narrow_parse_signatures()
    ensures
        fills_an_option(narrow_parse_entries()[0]),
        fills_an_option(narrow_parse_entries()[1]),
        fills_an_option(narrow_parse_entries()[2]),
        fills_an_option(narrow_parse_entries()[3]),
        fills_an_option(narrow_parse_entries()[4]),
{
}

/// The further file functions that belong together are called alike.
pub proof fn law_path_signatures()
    ensures
        is_temporary_variant(path_entries()[0], path_entries()[1]),
        fills_a_result(path_entries()[0]),
        fills_a_result(path_entries()[1]),
        fills_a_result(path_entries()[2]),
        fills_a_result(path_entries()[3]),
{
    reveal_strlit("_temporary");
    reveal_strlit("aster_rt_io_list_directories");
    reveal_strlit("aster_rt_io_list_directories_temporary");
    assert("aster_rt_io_list_directories_temporary"@ =~= "aster_rt_io_list_directories"@ + "_temporary"@);
}

/// The arithmetic functions that belong together are called alike.
pub proof fn law_service_signatures()
    ensures
        are_alike_but_for_width(service_entries()[2], service_entries()[3]),
        are_alike_but_for_width(service_entries()[4], service_entries()[5]),
        are_alike_but_for_width(service_entries()[6], service_entries()[7]),
        are_alike_but_for_width(service_entries()[8], service_entries()[9]),
{
}

/// The functions are the entries of the table, each at the address that the host gave for
/// its place.
pub proof fn law_functions_are_where_the_host_said(
    addresses: &[usize],
    functions: Vec<RuntimeFunction>,
    i: int,
)
    requires
        addresses@.len() == 115,
        call_ensures(runtime_functions, (addresses,), functions),
        0 <= i < 115,
    ensures
        functions@.len() == 115,
        functions@[i].address == addresses@[i],
        functions@[i].name@ == runtime_entries()[i].name,
        functions@[i].signature.parameters@ == runtime_entries()[i].parameters,
        functions@[i].signature.result == runtime_entries()[i].result,
{
    assert(entries(functions@)[i] == functions@[i].entry());
}

} // verus!

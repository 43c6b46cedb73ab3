//! Dictionary operations as generated code calls them: sizes and tags are signed
//! integers, and everything may be missing.

use vstd::prelude::*;

use crate::array::{abi_size, size_from_abi, AsterArray};
use crate::context::ExecutionContext;
use crate::dictionary::{
    dictionary_header_report, key_kind_of, option_written, AsterDictionary, DictionaryTypes,
};
use crate::dictionary_table::DictionaryKeyKind;
use crate::list::ListRegion;

verus! {

/// The types that a call names.
pub open spec fn abi_types(
    key_kind: i32,
    key_size: i32,
    key_align: i32,
    key_type_key: i64,
    value_size: i32,
    value_align: i32,
    value_type_key: i64,
) -> DictionaryTypes {
    DictionaryTypes {
        key_kind: key_kind_of(key_kind)->0,
        key_size: abi_size(key_size, 0),
        key_align: abi_size(key_align, 0),
        key_type_key: key_type_key as u64,
        value_size: abi_size(value_size, 0),
        value_align: abi_size(value_align, 0),
        value_type_key: value_type_key as u64,
    }
}

/// Creates a persistent dictionary.
pub fn aster_rt_dictionary_new(
    context: Option<&mut ExecutionContext>,
    key_kind: i32,
    key_size: i32,
    key_align: i32,
    key_type_key: i64,
    value_size: i32,
    value_align: i32,
    value_type_key: i64,
) -> (result: Option<AsterDictionary>)
    requires
        context matches Some(c) ==> c.wf(),
    ensures
        context is None ==> result is None,
        context matches Some(c) ==> {
            &&& final(c).wf()
            &&& c.scoped() ==> final(c).scoped()
            &&& key_kind_of(key_kind) is None ==> result is None && final(c).only_failed(
                *c,
                "Dictionary allocation received an invalid key kind"@,
            )
            &&& key_kind_of(key_kind) is Some ==> final(c).new_dictionary_outcome(
                *c,
                abi_types(
                    key_kind,
                    key_size,
                    key_align,
                    key_type_key,
                    value_size,
                    value_align,
                    value_type_key,
                ),
                ListRegion::Persistent,
                result,
            )
        },
{
    match context {
        None => None,
        Some(context) => match DictionaryKeyKind::from_abi(key_kind) {
            None => {
                context.fail_with("Dictionary allocation received an invalid key kind");
                None
            },
            Some(kind) => context.allocate_dictionary_in_region(
                kind,
                size_from_abi(key_size, 0),
                size_from_abi(key_align, 0),
                key_type_key as u64,
                size_from_abi(value_size, 0),
                size_from_abi(value_align, 0),
                value_type_key as u64,
                ListRegion::Persistent,
            ),
        },
    }
}

/// Creates a dictionary that lives until its scope is left.
pub fn aster_rt_dictionary_new_temporary(
    context: Option<&mut ExecutionContext>,
    key_kind: i32,
    key_size: i32,
    key_align: i32,
    key_type_key: i64,
    value_size: i32,
    value_align: i32,
    value_type_key: i64,
) -> (result: Option<AsterDictionary>)
    requires
        context matches Some(c) ==> c.wf(),
    ensures
        context is None ==> result is None,
        context matches Some(c) ==> {
            &&& final(c).wf()
            &&& c.scoped() ==> final(c).scoped()
            &&& key_kind_of(key_kind) is None ==> result is None && final(c).only_failed(
                *c,
                "Dictionary allocation received an invalid key kind"@,
            )
            &&& key_kind_of(key_kind) is Some ==> final(c).new_dictionary_outcome(
                *c,
                abi_types(
                    key_kind,
                    key_size,
                    key_align,
                    key_type_key,
                    value_size,
                    value_align,
                    value_type_key,
                ),
                ListRegion::Temporary,
                result,
            )
        },
{
    match context {
        None => None,
        Some(context) => match DictionaryKeyKind::from_abi(key_kind) {
            None => {
                context.fail_with("Dictionary allocation received an invalid key kind");
                None
            },
            Some(kind) => context.allocate_dictionary_in_region(
                kind,
                size_from_abi(key_size, 0),
                size_from_abi(key_align, 0),
                key_type_key as u64,
                size_from_abi(value_size, 0),
                size_from_abi(value_align, 0),
                value_type_key as u64,
                ListRegion::Temporary,
            ),
        },
    }
}

/// How many entries a dictionary holds, or zero where that cannot be told.
pub fn aster_rt_dictionary_length(
    context: Option<&mut ExecutionContext>,
    dictionary: Option<&AsterDictionary>,
) -> (length: i32)
    requires
        context matches Some(c) ==> c.wf(),
    ensures
        context is None ==> length == 0,
        context matches Some(c) ==> {
            let report = if c.error_text() is Some {
                None
            } else {
                match dictionary {
                    None => Some("Dictionary.Length received a null Dictionary"@),
                    Some(d) => dictionary_header_report(
                        *d,
                        c.configuration().identity.dictionary_owner_id,
                    ),
                }
            };
            &&& final(c).wf()
            &&& final(c).reported(*c, report)
            &&& length == match dictionary {
                Some(d) => if c.error_text() is None && report is None {
                    d.length
                } else {
                    0
                },
                None => 0,
            }
        },
{
    match context {
        None => 0,
        Some(context) => {
            if context.has_error() {
                return 0;
            }
            match dictionary {
                None => {
                    context.fail_with("Dictionary.Length received a null Dictionary");
                    0
                },
                Some(dictionary) => if context.validate_dictionary_header(dictionary) {
                    dictionary.length
                } else {
                    0
                },
            }
        },
    }
}

/// Adds or sets an entry.
fn dictionary_add_or_set_abi(
    context: Option<&mut ExecutionContext>,
    dictionary: Option<&mut AsterDictionary>,
    key_kind: i32,
    key_size: i32,
    key_align: i32,
    key_type_key: i64,
    value_size: i32,
    value_align: i32,
    value_type_key: i64,
    key: Option<&[u8]>,
    value: Option<&[u8]>,
    replace: bool,
) -> (result: i8)
    requires
        context matches Some(c) ==> c.wf(),
        key matches Some(k) ==> k@.len() >= key_size,
        value matches Some(v) ==> v@.len() >= value_size,
    ensures
        context is None ==> result == 0 && (dictionary matches Some(d) ==> *final(d) == *d),
        context matches Some(c) ==> {
            let types = abi_types(
                key_kind,
                key_size,
                key_align,
                key_type_key,
                value_size,
                value_align,
                value_type_key,
            );
            &&& final(c).wf()
            &&& c.scoped() ==> final(c).scoped()
            &&& key_kind_of(key_kind) is None ==> {
                &&& result == 0
                &&& final(c).only_failed(*c, "Dictionary operation received an invalid key kind"@)
                &&& dictionary matches Some(d) ==> *final(d) == *d
            }
            &&& key_kind_of(key_kind) is Some ==> {
                &&& dictionary is None ==> {
                    &&& result == 0
                    &&& final(c).reported(
                        *c,
                        if c.error_text() is Some {
                            None
                        } else {
                            c.put_report(
                                None,
                                types,
                                key,
                                value is Some,
                                if replace {
                                "Set"@
                            } else {
                                "Add"@
                            },
                            )
                        },
                    )
                }
                &&& dictionary matches Some(d) ==> final(c).put_outcome(
                    *c,
                    *d,
                    *final(d),
                    types,
                    key,
                    value,
                    replace,
                    result,
                )
            }
        },
{
    match context {
        None => 0,
        Some(context) => match DictionaryKeyKind::from_abi(key_kind) {
            None => {
                context.fail_with("Dictionary operation received an invalid key kind");
                0
            },
            Some(kind) => context.dictionary_add_or_set(
                dictionary,
                kind,
                size_from_abi(key_size, 0),
                size_from_abi(key_align, 0),
                key_type_key as u64,
                size_from_abi(value_size, 0),
                size_from_abi(value_align, 0),
                value_type_key as u64,
                key,
                value,
                replace,
            ),
        },
    }
}

/// Adds an entry. Gives one if it is new and zero if its key is there already.
pub fn aster_rt_dictionary_add(
    context: Option<&mut ExecutionContext>,
    dictionary: Option<&mut AsterDictionary>,
    key_kind: i32,
    key_size: i32,
    key_align: i32,
    key_type_key: i64,
    value_size: i32,
    value_align: i32,
    value_type_key: i64,
    key: Option<&[u8]>,
    value: Option<&[u8]>,
) -> (result: i8)
    requires
        context matches Some(c) ==> c.wf(),
        key matches Some(k) ==> k@.len() >= key_size,
        value matches Some(v) ==> v@.len() >= value_size,
    ensures
        context is None ==> result == 0 && (dictionary matches Some(d) ==> *final(d) == *d),
        context matches Some(c) ==> {
            let types = abi_types(
                key_kind,
                key_size,
                key_align,
                key_type_key,
                value_size,
                value_align,
                value_type_key,
            );
            &&& final(c).wf()
            &&& c.scoped() ==> final(c).scoped()
            &&& key_kind_of(key_kind) is None ==> {
                &&& result == 0
                &&& final(c).only_failed(*c, "Dictionary operation received an invalid key kind"@)
                &&& dictionary matches Some(d) ==> *final(d) == *d
            }
            &&& key_kind_of(key_kind) is Some ==> {
                &&& dictionary is None ==> {
                    &&& result == 0
                    &&& final(c).reported(
                        *c,
                        if c.error_text() is Some {
                            None
                        } else {
                            c.put_report(
                                None,
                                types,
                                key,
                                value is Some,
                                "Add"@,
                            )
                        },
                    )
                }
                &&& dictionary matches Some(d) ==> final(c).put_outcome(
                    *c,
                    *d,
                    *final(d),
                    types,
                    key,
                    value,
                    false,
                    result,
                )
            }
        },
{
    dictionary_add_or_set_abi(
        context,
        dictionary,
        key_kind,
        key_size,
        key_align,
        key_type_key,
        value_size,
        value_align,
        value_type_key,
        key,
        value,
        false,
    )
}

/// Sets an entry. Gives one if its value was replaced and zero otherwise.
pub fn aster_rt_dictionary_set(
    context: Option<&mut ExecutionContext>,
    dictionary: Option<&mut AsterDictionary>,
    key_kind: i32,
    key_size: i32,
    key_align: i32,
    key_type_key: i64,
    value_size: i32,
    value_align: i32,
    value_type_key: i64,
    key: Option<&[u8]>,
    value: Option<&[u8]>,
) -> (result: i8)
    requires
        context matches Some(c) ==> c.wf(),
        key matches Some(k) ==> k@.len() >= key_size,
        value matches Some(v) ==> v@.len() >= value_size,
    ensures
        context is None ==> result == 0 && (dictionary matches Some(d) ==> *final(d) == *d),
        context matches Some(c) ==> {
            let types = abi_types(
                key_kind,
                key_size,
                key_align,
                key_type_key,
                value_size,
                value_align,
                value_type_key,
            );
            &&& final(c).wf()
            &&& c.scoped() ==> final(c).scoped()
            &&& key_kind_of(key_kind) is None ==> {
                &&& result == 0
                &&& final(c).only_failed(*c, "Dictionary operation received an invalid key kind"@)
                &&& dictionary matches Some(d) ==> *final(d) == *d
            }
            &&& key_kind_of(key_kind) is Some ==> {
                &&& dictionary is None ==> {
                    &&& result == 0
                    &&& final(c).reported(
                        *c,
                        if c.error_text() is Some {
                            None
                        } else {
                            c.put_report(
                                None,
                                types,
                                key,
                                value is Some,
                                "Set"@,
                            )
                        },
                    )
                }
                &&& dictionary matches Some(d) ==> final(c).put_outcome(
                    *c,
                    *d,
                    *final(d),
                    types,
                    key,
                    value,
                    true,
                    result,
                )
            }
        },
{
    dictionary_add_or_set_abi(
        context,
        dictionary,
        key_kind,
        key_size,
        key_align,
        key_type_key,
        value_size,
        value_align,
        value_type_key,
        key,
        value,
        true,
    )
}

/// Looks for an entry or removes it.
fn dictionary_contains_or_remove_abi(
    context: Option<&mut ExecutionContext>,
    dictionary: Option<&mut AsterDictionary>,
    key_kind: i32,
    key_size: i32,
    key_align: i32,
    key_type_key: i64,
    value_size: i32,
    value_align: i32,
    value_type_key: i64,
    key: Option<&[u8]>,
    remove: bool,
) -> (result: i8)
    requires
        context matches Some(c) ==> c.wf(),
        key matches Some(k) ==> k@.len() >= key_size,
    ensures
        context is None ==> result == 0 && (dictionary matches Some(d) ==> *final(d) == *d),
        context matches Some(c) ==> {
            let types = abi_types(
                key_kind,
                key_size,
                key_align,
                key_type_key,
                value_size,
                value_align,
                value_type_key,
            );
            &&& final(c).wf()
            &&& c.scoped() ==> final(c).scoped()
            &&& key_kind_of(key_kind) is None ==> {
                &&& result == 0
                &&& final(c).only_failed(*c, "Dictionary operation received an invalid key kind"@)
                &&& dictionary matches Some(d) ==> *final(d) == *d
            }
            &&& key_kind_of(key_kind) is Some ==> {
                &&& dictionary is None ==> {
                    &&& result == 0
                    &&& final(c).reported(
                        *c,
                        if c.error_text() is Some {
                            None
                        } else {
                            c.lookup_report(
                                None,
                                types,
                                key,
                                if remove {
                                "Remove"@
                            } else {
                                "ContainsKey"@
                            },
                            )
                        },
                    )
                }
                &&& dictionary matches Some(d) ==> final(c).take_outcome(
                    *c,
                    *d,
                    *final(d),
                    types,
                    key,
                    remove,
                    result,
                )
            }
        },
{
    match context {
        None => 0,
        Some(context) => match DictionaryKeyKind::from_abi(key_kind) {
            None => {
                context.fail_with("Dictionary operation received an invalid key kind");
                0
            },
            Some(kind) => context.dictionary_contains_or_remove(
                dictionary,
                kind,
                size_from_abi(key_size, 0),
                size_from_abi(key_align, 0),
                key_type_key as u64,
                size_from_abi(value_size, 0),
                size_from_abi(value_align, 0),
                value_type_key as u64,
                key,
                remove,
            ),
        },
    }
}

/// Gives one if there is an entry with this key, and zero otherwise.
pub fn aster_rt_dictionary_contains_key(
    context: Option<&mut ExecutionContext>,
    dictionary: Option<&mut AsterDictionary>,
    key_kind: i32,
    key_size: i32,
    key_align: i32,
    key_type_key: i64,
    value_size: i32,
    value_align: i32,
    value_type_key: i64,
    key: Option<&[u8]>,
) -> (result: i8)
    requires
        context matches Some(c) ==> c.wf(),
        key matches Some(k) ==> k@.len() >= key_size,
    ensures
        context is None ==> result == 0 && (dictionary matches Some(d) ==> *final(d) == *d),
        context matches Some(c) ==> {
            let types = abi_types(
                key_kind,
                key_size,
                key_align,
                key_type_key,
                value_size,
                value_align,
                value_type_key,
            );
            &&& final(c).wf()
            &&& c.scoped() ==> final(c).scoped()
            &&& key_kind_of(key_kind) is None ==> {
                &&& result == 0
                &&& final(c).only_failed(*c, "Dictionary operation received an invalid key kind"@)
                &&& dictionary matches Some(d) ==> *final(d) == *d
            }
            &&& key_kind_of(key_kind) is Some ==> {
                &&& dictionary is None ==> {
                    &&& result == 0
                    &&& final(c).reported(
                        *c,
                        if c.error_text() is Some {
                            None
                        } else {
                            c.lookup_report(
                                None,
                                types,
                                key,
                                "ContainsKey"@,
                            )
                        },
                    )
                }
                &&& dictionary matches Some(d) ==> final(c).take_outcome(
                    *c,
                    *d,
                    *final(d),
                    types,
                    key,
                    false,
                    result,
                )
            }
        },
{
    dictionary_contains_or_remove_abi(
        context,
        dictionary,
        key_kind,
        key_size,
        key_align,
        key_type_key,
        value_size,
        value_align,
        value_type_key,
        key,
        false,
    )
}

/// Removes the entry with this key. Gives one if there was one, and zero
/// otherwise.
pub fn aster_rt_dictionary_remove(
    context: Option<&mut ExecutionContext>,
    dictionary: Option<&mut AsterDictionary>,
    key_kind: i32,
    key_size: i32,
    key_align: i32,
    key_type_key: i64,
    value_size: i32,
    value_align: i32,
    value_type_key: i64,
    key: Option<&[u8]>,
) -> (result: i8)
    requires
        context matches Some(c) ==> c.wf(),
        key matches Some(k) ==> k@.len() >= key_size,
    ensures
        context is None ==> result == 0 && (dictionary matches Some(d) ==> *final(d) == *d),
        context matches Some(c) ==> {
            let types = abi_types(
                key_kind,
                key_size,
                key_align,
                key_type_key,
                value_size,
                value_align,
                value_type_key,
            );
            &&& final(c).wf()
            &&& c.scoped() ==> final(c).scoped()
            &&& key_kind_of(key_kind) is None ==> {
                &&& result == 0
                &&& final(c).only_failed(*c, "Dictionary operation received an invalid key kind"@)
                &&& dictionary matches Some(d) ==> *final(d) == *d
            }
            &&& key_kind_of(key_kind) is Some ==> {
                &&& dictionary is None ==> {
                    &&& result == 0
                    &&& final(c).reported(
                        *c,
                        if c.error_text() is Some {
                            None
                        } else {
                            c.lookup_report(
                                None,
                                types,
                                key,
                                "Remove"@,
                            )
                        },
                    )
                }
                &&& dictionary matches Some(d) ==> final(c).take_outcome(
                    *c,
                    *d,
                    *final(d),
                    types,
                    key,
                    true,
                    result,
                )
            }
        },
{
    dictionary_contains_or_remove_abi(
        context,
        dictionary,
        key_kind,
        key_size,
        key_align,
        key_type_key,
        value_size,
        value_align,
        value_type_key,
        key,
        true,
    )
}

/// Writes the value of a key, or that there is none, to `destination`.
pub fn aster_rt_dictionary_try_get(
    context: Option<&mut ExecutionContext>,
    dictionary: Option<&AsterDictionary>,
    key_kind: i32,
    key_size: i32,
    key_align: i32,
    key_type_key: i64,
    value_size: i32,
    value_align: i32,
    value_type_key: i64,
    key: Option<&[u8]>,
    destination: Option<&mut Vec<u8>>,
    total_size: i32,
    some_tag: i32,
    none_tag: i32,
    payload_offset: i32,
)
    requires
        context matches Some(c) ==> c.wf(),
        key matches Some(k) ==> k@.len() >= key_size,
        destination matches Some(d) ==> d@.len() >= total_size,
    ensures
        context is None ==> (destination matches Some(d) ==> final(d)@ == d@),
        context matches Some(c) ==> {
            let types = abi_types(
                key_kind,
                key_size,
                key_align,
                key_type_key,
                value_size,
                value_align,
                value_type_key,
            );
            let known = match dictionary {
                None => None,
                Some(d) => Some(*d),
            };
            let failed = c.error_text() is Some;
            let report = if failed {
                None
            } else {
                c.get_report(
                    known,
                    types,
                    key,
                    destination is Some,
                    abi_size(total_size, 0),
                    abi_size(payload_offset, u32::MAX),
                )
            };
            &&& final(c).wf()
            &&& key_kind_of(key_kind) is None ==> {
                &&& final(c).only_failed(*c, "Dictionary.TryGet received an invalid key kind"@)
                &&& destination matches Some(target) ==> final(target)@ == target@
            }
            &&& key_kind_of(key_kind) is Some ==> {
                &&& final(c).reported(*c, report)
                &&& destination matches Some(target) ==> final(target)@ == if failed || report
                    is Some {
                    target@
                } else {
                    option_written(
                        target@,
                        abi_size(total_size, 0),
                        abi_size(some_tag, 0),
                        abi_size(none_tag, 0),
                        abi_size(payload_offset, u32::MAX),
                        c.value_of(known->0, types, key),
                    )
                }
            }
        },
{
    if let Some(context) = context {
        match DictionaryKeyKind::from_abi(key_kind) {
            None => {
                context.fail_with("Dictionary.TryGet received an invalid key kind");
            },
            Some(kind) => {
                context.dictionary_try_get(
                    dictionary,
                    kind,
                    size_from_abi(key_size, 0),
                    size_from_abi(key_align, 0),
                    key_type_key as u64,
                    size_from_abi(value_size, 0),
                    size_from_abi(value_align, 0),
                    value_type_key as u64,
                    key,
                    destination,
                    size_from_abi(total_size, 0),
                    size_from_abi(some_tag, 0),
                    size_from_abi(none_tag, 0),
                    size_from_abi(payload_offset, 0xffff_ffff),
                );
            },
        }
    }
}

/// Lists the entries of a dictionary in an array.
pub fn aster_rt_dictionary_entries(
    context: Option<&mut ExecutionContext>,
    dictionary: Option<&AsterDictionary>,
    key_kind: i32,
    key_size: i32,
    key_align: i32,
    key_type_key: i64,
    value_size: i32,
    value_align: i32,
    value_type_key: i64,
    entry_size: i32,
    key_offset: i32,
    value_offset: i32,
    temporary: i8,
) -> (result: Option<AsterArray>)
    requires
        context matches Some(c) ==> c.wf(),
    ensures
        context is None ==> result is None,
        context matches Some(c) ==> {
            &&& final(c).wf()
            &&& c.scoped() ==> final(c).scoped()
            &&& key_kind_of(key_kind) is None ==> result is None && final(c).only_failed(
                *c,
                "Dictionary.Entries received an invalid key kind"@,
            )
            &&& key_kind_of(key_kind) is Some ==> final(c).snapshot_outcome(
                *c,
                match dictionary {
                    None => None,
                    Some(d) => Some(*d),
                },
                abi_types(
                    key_kind,
                    key_size,
                    key_align,
                    key_type_key,
                    value_size,
                    value_align,
                    value_type_key,
                ),
                abi_size(entry_size, 0),
                abi_size(key_offset, u32::MAX),
                abi_size(value_offset, u32::MAX),
                temporary != 0,
                result,
            )
        },
{
    match context {
        None => None,
        Some(context) => match DictionaryKeyKind::from_abi(key_kind) {
            None => {
                context.fail_with("Dictionary.Entries received an invalid key kind");
                None
            },
            Some(kind) => {
                let region: ListRegion = if temporary == 0 {
                    ListRegion::Persistent
                } else {
                    ListRegion::Temporary
                };
                context.dictionary_entries(
                    dictionary,
                    kind,
                    size_from_abi(key_size, 0),
                    size_from_abi(key_align, 0),
                    key_type_key as u64,
                    size_from_abi(value_size, 0),
                    size_from_abi(value_align, 0),
                    value_type_key as u64,
                    size_from_abi(entry_size, 0),
                    size_from_abi(key_offset, 0xffff_ffff),
                    size_from_abi(value_offset, 0xffff_ffff),
                    region,
                )
            },
        },
    }
}

} // verus!

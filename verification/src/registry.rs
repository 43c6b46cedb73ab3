//! Central registry of the functions that the runtime exports to generated code.
//!
//! Backends bind these symbols by name and address, and give [`RuntimeType`] their
//! own value representation. The host says where each function is; the registry
//! says what it is called and how it is called.

use vstd::prelude::*;

verus! {

/// Backend-neutral value type used in runtime signatures.
#[derive(Clone, Copy, Debug, PartialEq, Eq, Structural)]
pub enum RuntimeType {
    /// 8-bit integer; a `bool` uses `0` and `1`.
    I8,
    /// 32-bit signed integer.
    I32,
    /// 64-bit signed integer; a `ulong` crosses as this same bit pattern.
    I64,
    /// 32-bit floating point.
    F32,
    /// 64-bit floating point.
    F64,
    /// Target-width pointer.
    Pointer,
}

/// The exact signature of one runtime function.
#[derive(Debug)]
pub struct RuntimeSignature {
    pub parameters: Vec<RuntimeType>,
    pub result: Option<RuntimeType>,
}

/// One function exported by the runtime to generated code.
#[derive(Debug)]
pub struct RuntimeFunction {
    /// Stable symbol name used by backends to bind the function.
    pub name: &'static str,
    /// Host address of the implementation.
    pub address: usize,
    pub signature: RuntimeSignature,
}

/// What a function is called, and how it is called.
#[verifier::ext_equal]
pub struct RuntimeEntry {
    pub name: Seq<char>,
    pub parameters: Seq<RuntimeType>,
    pub result: Option<RuntimeType>,
}

/// How many functions the runtime exports.
pub const RUNTIME_FUNCTION_COUNT: usize = 115;

impl RuntimeFunction {
    pub open spec fn entry(self) -> RuntimeEntry {
        RuntimeEntry {
            name: self.name@,
            parameters: self.signature.parameters@,
            result: self.signature.result,
        }
    }
}

/// The entries of functions.
pub open spec fn entries(functions: Seq<RuntimeFunction>) -> Seq<RuntimeEntry> {
    Seq::new(functions.len(), |i: int| functions[i].entry())
}

/// Whether each function is where the host said.
pub open spec fn placed(functions: Seq<RuntimeFunction>, addresses: Seq<usize>) -> bool {
    &&& functions.len() <= addresses.len()
    &&& forall|i: int|
        0 <= i < functions.len() ==> (#[trigger] functions[i]).address == addresses[i]
}

/// Adds the next function, which is at the next address.
fn export(
    functions: &mut Vec<RuntimeFunction>,
    addresses: &[usize],
    name: &'static str,
    parameters: Vec<RuntimeType>,
    result: Option<RuntimeType>,
)
    requires
        old(functions)@.len() < addresses@.len(),
        placed(old(functions)@, addresses@),
    ensures
        final(functions)@.len() == old(functions)@.len() + 1,
        placed(final(functions)@, addresses@),
        entries(final(functions)@) == entries(old(functions)@).push(
            (RuntimeEntry { name: name@, parameters: parameters@, result }),
        ),
{
    let address: usize = addresses[functions.len()];
    functions.push(
        RuntimeFunction { name, address, signature: RuntimeSignature { parameters, result } },
    );
    assert(entries(functions@) =~= entries(old(functions)@).push(
        RuntimeEntry { name: name@, parameters: parameters@, result },
    ));
}

/// The functions for logging, arrays, objects and scopes.
pub open spec fn memory_entries() -> Seq<RuntimeEntry> {
    seq![
        RuntimeEntry {
            name: "aster_rt_log"@,
            parameters: seq![RuntimeType::I32, RuntimeType::Pointer],
            result: None,
        },
        RuntimeEntry {
            name: "aster_rt_array_new"@,
            parameters: seq![RuntimeType::Pointer, RuntimeType::I32, RuntimeType::I32],
            result: Some(RuntimeType::Pointer),
        },
        RuntimeEntry {
            name: "aster_rt_array_new_temporary"@,
            parameters: seq![RuntimeType::Pointer, RuntimeType::I32, RuntimeType::I32],
            result: Some(RuntimeType::Pointer),
        },
        RuntimeEntry {
            name: "aster_rt_object_new"@,
            parameters: seq![RuntimeType::Pointer, RuntimeType::I32],
            result: Some(RuntimeType::Pointer),
        },
        RuntimeEntry {
            name: "aster_rt_object_new_temporary"@,
            parameters: seq![RuntimeType::Pointer, RuntimeType::I32],
            result: Some(RuntimeType::Pointer),
        },
        RuntimeEntry {
            name: "aster_rt_temporary_scope_enter"@,
            parameters: seq![RuntimeType::Pointer],
            result: None,
        },
        RuntimeEntry {
            name: "aster_rt_temporary_scope_leave"@,
            parameters: seq![RuntimeType::Pointer],
            result: None,
        },
        RuntimeEntry {
            name: "aster_rt_array_element"@,
            parameters: seq![RuntimeType::Pointer, RuntimeType::Pointer, RuntimeType::I32],
            result: Some(RuntimeType::Pointer),
        },
        RuntimeEntry {
            name: "aster_rt_array_length"@,
            parameters: seq![RuntimeType::Pointer, RuntimeType::Pointer],
            result: Some(RuntimeType::I32),
        },
    ]
}

fn export_memory(functions: &mut Vec<RuntimeFunction>, addresses: &[usize])
    requires
        old(functions)@.len() + memory_entries().len() <= addresses@.len(),
        placed(old(functions)@, addresses@),
    ensures
        final(functions)@.len() == old(functions)@.len() + memory_entries().len(),
        placed(final(functions)@, addresses@),
        entries(final(functions)@) == entries(old(functions)@) + memory_entries(),
{
    let p: Vec<RuntimeType> = vec![RuntimeType::I32, RuntimeType::Pointer];
    assert(p@ =~= memory_entries()[0].parameters);
    export(functions, addresses, "aster_rt_log", p, None);
    let p: Vec<RuntimeType> = vec![RuntimeType::Pointer, RuntimeType::I32, RuntimeType::I32];
    assert(p@ =~= memory_entries()[1].parameters);
    export(functions, addresses, "aster_rt_array_new", p, Some(RuntimeType::Pointer));
    let p: Vec<RuntimeType> = vec![RuntimeType::Pointer, RuntimeType::I32, RuntimeType::I32];
    assert(p@ =~= memory_entries()[2].parameters);
    export(functions, addresses, "aster_rt_array_new_temporary", p, Some(RuntimeType::Pointer));
    let p: Vec<RuntimeType> = vec![RuntimeType::Pointer, RuntimeType::I32];
    assert(p@ =~= memory_entries()[3].parameters);
    export(functions, addresses, "aster_rt_object_new", p, Some(RuntimeType::Pointer));
    let p: Vec<RuntimeType> = vec![RuntimeType::Pointer, RuntimeType::I32];
    assert(p@ =~= memory_entries()[4].parameters);
    export(functions, addresses, "aster_rt_object_new_temporary", p, Some(RuntimeType::Pointer));
    let p: Vec<RuntimeType> = vec![RuntimeType::Pointer];
    assert(p@ =~= memory_entries()[5].parameters);
    export(functions, addresses, "aster_rt_temporary_scope_enter", p, None);
    let p: Vec<RuntimeType> = vec![RuntimeType::Pointer];
    assert(p@ =~= memory_entries()[6].parameters);
    export(functions, addresses, "aster_rt_temporary_scope_leave", p, None);
    let p: Vec<RuntimeType> = vec![RuntimeType::Pointer, RuntimeType::Pointer, RuntimeType::I32];
    assert(p@ =~= memory_entries()[7].parameters);
    export(functions, addresses, "aster_rt_array_element", p, Some(RuntimeType::Pointer));
    let p: Vec<RuntimeType> = vec![RuntimeType::Pointer, RuntimeType::Pointer];
    assert(p@ =~= memory_entries()[8].parameters);
    export(functions, addresses, "aster_rt_array_length", p, Some(RuntimeType::I32));
    assert(entries(functions@) =~= entries(old(functions)@) + memory_entries());
}

/// The functions for lists.
pub open spec fn list_entries() -> Seq<RuntimeEntry> {
    seq![
        RuntimeEntry {
            name: "aster_rt_list_new"@,
            parameters: seq![RuntimeType::Pointer, RuntimeType::I32, RuntimeType::I32, RuntimeType::I64],
            result: Some(RuntimeType::Pointer),
        },
        RuntimeEntry {
            name: "aster_rt_list_new_temporary"@,
            parameters: seq![RuntimeType::Pointer, RuntimeType::I32, RuntimeType::I32, RuntimeType::I64],
            result: Some(RuntimeType::Pointer),
        },
        RuntimeEntry {
            name: "aster_rt_list_length"@,
            parameters: seq![RuntimeType::Pointer, RuntimeType::Pointer],
            result: Some(RuntimeType::I32),
        },
        RuntimeEntry {
            name: "aster_rt_list_version"@,
            parameters: seq![RuntimeType::Pointer, RuntimeType::Pointer],
            result: Some(RuntimeType::I64),
        },
        RuntimeEntry {
            name: "aster_rt_list_version_mismatch"@,
            parameters: seq![RuntimeType::Pointer],
            result: None,
        },
        RuntimeEntry {
            name: "aster_rt_list_add"@,
            parameters: seq![
                RuntimeType::Pointer,
                RuntimeType::Pointer,
                RuntimeType::I32,
                RuntimeType::I32,
                RuntimeType::I64,
                RuntimeType::Pointer,
            ],
            result: None,
        },
        RuntimeEntry {
            name: "aster_rt_list_get"@,
            parameters: seq![
                RuntimeType::Pointer,
                RuntimeType::Pointer,
                RuntimeType::I32,
                RuntimeType::I32,
                RuntimeType::I64,
                RuntimeType::I32,
                RuntimeType::Pointer,
            ],
            result: None,
        },
        RuntimeEntry {
            name: "aster_rt_list_remove_at"@,
            parameters: seq![
                RuntimeType::Pointer,
                RuntimeType::Pointer,
                RuntimeType::I32,
                RuntimeType::I32,
                RuntimeType::I64,
                RuntimeType::I32,
            ],
            result: None,
        },
    ]
}

fn export_list(functions: &mut Vec<RuntimeFunction>, addresses: &[usize])
    requires
        old(functions)@.len() + list_entries().len() <= addresses@.len(),
        placed(old(functions)@, addresses@),
    ensures
        final(functions)@.len() == old(functions)@.len() + list_entries().len(),
        placed(final(functions)@, addresses@),
        entries(final(functions)@) == entries(old(functions)@) + list_entries(),
{
    let p: Vec<RuntimeType> = vec![RuntimeType::Pointer, RuntimeType::I32, RuntimeType::I32, RuntimeType::I64];
    assert(p@ =~= list_entries()[0].parameters);
    export(functions, addresses, "aster_rt_list_new", p, Some(RuntimeType::Pointer));
    let p: Vec<RuntimeType> = vec![RuntimeType::Pointer, RuntimeType::I32, RuntimeType::I32, RuntimeType::I64];
    assert(p@ =~= list_entries()[1].parameters);
    export(functions, addresses, "aster_rt_list_new_temporary", p, Some(RuntimeType::Pointer));
    let p: Vec<RuntimeType> = vec![RuntimeType::Pointer, RuntimeType::Pointer];
    assert(p@ =~= list_entries()[2].parameters);
    export(functions, addresses, "aster_rt_list_length", p, Some(RuntimeType::I32));
    let p: Vec<RuntimeType> = vec![RuntimeType::Pointer, RuntimeType::Pointer];
    assert(p@ =~= list_entries()[3].parameters);
    export(functions, addresses, "aster_rt_list_version", p, Some(RuntimeType::I64));
    let p: Vec<RuntimeType> = vec![RuntimeType::Pointer];
    assert(p@ =~= list_entries()[4].parameters);
    export(functions, addresses, "aster_rt_list_version_mismatch", p, None);
    let p: Vec<RuntimeType> = vec![
        RuntimeType::Pointer,
        RuntimeType::Pointer,
        RuntimeType::I32,
        RuntimeType::I32,
        RuntimeType::I64,
        RuntimeType::Pointer,
    ];
    assert(p@ =~= list_entries()[5].parameters);
    export(functions, addresses, "aster_rt_list_add", p, None);
    let p: Vec<RuntimeType> = vec![
        RuntimeType::Pointer,
        RuntimeType::Pointer,
        RuntimeType::I32,
        RuntimeType::I32,
        RuntimeType::I64,
        RuntimeType::I32,
        RuntimeType::Pointer,
    ];
    assert(p@ =~= list_entries()[6].parameters);
    export(functions, addresses, "aster_rt_list_get", p, None);
    let p: Vec<RuntimeType> = vec![
        RuntimeType::Pointer,
        RuntimeType::Pointer,
        RuntimeType::I32,
        RuntimeType::I32,
        RuntimeType::I64,
        RuntimeType::I32,
    ];
    assert(p@ =~= list_entries()[7].parameters);
    export(functions, addresses, "aster_rt_list_remove_at", p, None);
    assert(entries(functions@) =~= entries(old(functions)@) + list_entries());
}

/// The functions for reading strings.
pub open spec fn string_entries() -> Seq<RuntimeEntry> {
    seq![
        RuntimeEntry {
            name: "aster_rt_string_eq"@,
            parameters: seq![RuntimeType::Pointer, RuntimeType::Pointer],
            result: Some(RuntimeType::I8),
        },
        RuntimeEntry {
            name: "aster_rt_string_concat"@,
            parameters: seq![RuntimeType::Pointer, RuntimeType::Pointer, RuntimeType::Pointer],
            result: Some(RuntimeType::Pointer),
        },
        RuntimeEntry {
            name: "aster_rt_string_concat_temporary"@,
            parameters: seq![RuntimeType::Pointer, RuntimeType::Pointer, RuntimeType::Pointer],
            result: Some(RuntimeType::Pointer),
        },
        RuntimeEntry {
            name: "aster_rt_string_length"@,
            parameters: seq![RuntimeType::Pointer, RuntimeType::Pointer],
            result: Some(RuntimeType::I32),
        },
        RuntimeEntry {
            name: "aster_rt_string_byte_length"@,
            parameters: seq![RuntimeType::Pointer, RuntimeType::Pointer],
            result: Some(RuntimeType::I32),
        },
        RuntimeEntry {
            name: "aster_rt_string_decode_next"@,
            parameters: seq![
                RuntimeType::Pointer,
                RuntimeType::Pointer,
                RuntimeType::I32,
                RuntimeType::Pointer,
                RuntimeType::Pointer,
            ],
            result: Some(RuntimeType::I8),
        },
        RuntimeEntry {
            name: "aster_rt_string_contains"@,
            parameters: seq![RuntimeType::Pointer, RuntimeType::Pointer, RuntimeType::Pointer],
            result: Some(RuntimeType::I8),
        },
        RuntimeEntry {
            name: "aster_rt_string_starts_with"@,
            parameters: seq![RuntimeType::Pointer, RuntimeType::Pointer, RuntimeType::Pointer],
            result: Some(RuntimeType::I8),
        },
        RuntimeEntry {
            name: "aster_rt_string_ends_with"@,
            parameters: seq![RuntimeType::Pointer, RuntimeType::Pointer, RuntimeType::Pointer],
            result: Some(RuntimeType::I8),
        },
        RuntimeEntry {
            name: "aster_rt_string_index_of"@,
            parameters: seq![RuntimeType::Pointer, RuntimeType::Pointer, RuntimeType::Pointer],
            result: Some(RuntimeType::I32),
        },
        RuntimeEntry {
            name: "aster_rt_string_substring_from"@,
            parameters: seq![RuntimeType::Pointer, RuntimeType::Pointer, RuntimeType::I32],
            result: Some(RuntimeType::Pointer),
        },
        RuntimeEntry {
            name: "aster_rt_string_substring_from_temporary"@,
            parameters: seq![RuntimeType::Pointer, RuntimeType::Pointer, RuntimeType::I32],
            result: Some(RuntimeType::Pointer),
        },
        RuntimeEntry {
            name: "aster_rt_string_substring_range"@,
            parameters: seq![
                RuntimeType::Pointer,
                RuntimeType::Pointer,
                RuntimeType::I32,
                RuntimeType::I32,
            ],
            result: Some(RuntimeType::Pointer),
        },
        RuntimeEntry {
            name: "aster_rt_string_substring_range_temporary"@,
            parameters: seq![
                RuntimeType::Pointer,
                RuntimeType::Pointer,
                RuntimeType::I32,
                RuntimeType::I32,
            ],
            result: Some(RuntimeType::Pointer),
        },
    ]
}

fn export_string(functions: &mut Vec<RuntimeFunction>, addresses: &[usize])
    requires
        old(functions)@.len() + string_entries().len() <= addresses@.len(),
        placed(old(functions)@, addresses@),
    ensures
        final(functions)@.len() == old(functions)@.len() + string_entries().len(),
        placed(final(functions)@, addresses@),
        entries(final(functions)@) == entries(old(functions)@) + string_entries(),
{
    let p: Vec<RuntimeType> = vec![RuntimeType::Pointer, RuntimeType::Pointer];
    assert(p@ =~= string_entries()[0].parameters);
    export(functions, addresses, "aster_rt_string_eq", p, Some(RuntimeType::I8));
    let p: Vec<RuntimeType> = vec![RuntimeType::Pointer, RuntimeType::Pointer, RuntimeType::Pointer];
    assert(p@ =~= string_entries()[1].parameters);
    export(functions, addresses, "aster_rt_string_concat", p, Some(RuntimeType::Pointer));
    let p: Vec<RuntimeType> = vec![RuntimeType::Pointer, RuntimeType::Pointer, RuntimeType::Pointer];
    assert(p@ =~= string_entries()[2].parameters);
    export(functions, addresses, "aster_rt_string_concat_temporary", p, Some(RuntimeType::Pointer));
    let p: Vec<RuntimeType> = vec![RuntimeType::Pointer, RuntimeType::Pointer];
    assert(p@ =~= string_entries()[3].parameters);
    export(functions, addresses, "aster_rt_string_length", p, Some(RuntimeType::I32));
    let p: Vec<RuntimeType> = vec![RuntimeType::Pointer, RuntimeType::Pointer];
    assert(p@ =~= string_entries()[4].parameters);
    export(functions, addresses, "aster_rt_string_byte_length", p, Some(RuntimeType::I32));
    let p: Vec<RuntimeType> = vec![
        RuntimeType::Pointer,
        RuntimeType::Pointer,
        RuntimeType::I32,
        RuntimeType::Pointer,
        RuntimeType::Pointer,
    ];
    assert(p@ =~= string_entries()[5].parameters);
    export(functions, addresses, "aster_rt_string_decode_next", p, Some(RuntimeType::I8));
    let p: Vec<RuntimeType> = vec![RuntimeType::Pointer, RuntimeType::Pointer, RuntimeType::Pointer];
    assert(p@ =~= string_entries()[6].parameters);
    export(functions, addresses, "aster_rt_string_contains", p, Some(RuntimeType::I8));
    let p: Vec<RuntimeType> = vec![RuntimeType::Pointer, RuntimeType::Pointer, RuntimeType::Pointer];
    assert(p@ =~= string_entries()[7].parameters);
    export(functions, addresses, "aster_rt_string_starts_with", p, Some(RuntimeType::I8));
    let p: Vec<RuntimeType> = vec![RuntimeType::Pointer, RuntimeType::Pointer, RuntimeType::Pointer];
    assert(p@ =~= string_entries()[8].parameters);
    export(functions, addresses, "aster_rt_string_ends_with", p, Some(RuntimeType::I8));
    let p: Vec<RuntimeType> = vec![RuntimeType::Pointer, RuntimeType::Pointer, RuntimeType::Pointer];
    assert(p@ =~= string_entries()[9].parameters);
    export(functions, addresses, "aster_rt_string_index_of", p, Some(RuntimeType::I32));
    let p: Vec<RuntimeType> = vec![RuntimeType::Pointer, RuntimeType::Pointer, RuntimeType::I32];
    assert(p@ =~= string_entries()[10].parameters);
    export(functions, addresses, "aster_rt_string_substring_from", p, Some(RuntimeType::Pointer));
    let p: Vec<RuntimeType> = vec![RuntimeType::Pointer, RuntimeType::Pointer, RuntimeType::I32];
    assert(p@ =~= string_entries()[11].parameters);
    export(functions, addresses, "aster_rt_string_substring_from_temporary", p, Some(RuntimeType::Pointer));
    let p: Vec<RuntimeType> = vec![RuntimeType::Pointer, RuntimeType::Pointer, RuntimeType::I32, RuntimeType::I32];
    assert(p@ =~= string_entries()[12].parameters);
    export(functions, addresses, "aster_rt_string_substring_range", p, Some(RuntimeType::Pointer));
    let p: Vec<RuntimeType> = vec![RuntimeType::Pointer, RuntimeType::Pointer, RuntimeType::I32, RuntimeType::I32];
    assert(p@ =~= string_entries()[13].parameters);
    export(functions, addresses, "aster_rt_string_substring_range_temporary", p, Some(RuntimeType::Pointer));
    assert(entries(functions@) =~= entries(old(functions)@) + string_entries());
}

/// The functions for making strings.
pub open spec fn text_entries() -> Seq<RuntimeEntry> {
    seq![
        RuntimeEntry {
            name: "aster_rt_string_from_long"@,
            parameters: seq![RuntimeType::Pointer, RuntimeType::I64],
            result: Some(RuntimeType::Pointer),
        },
        RuntimeEntry {
            name: "aster_rt_string_from_long_temporary"@,
            parameters: seq![RuntimeType::Pointer, RuntimeType::I64],
            result: Some(RuntimeType::Pointer),
        },
        RuntimeEntry {
            name: "aster_rt_string_from_ulong"@,
            parameters: seq![RuntimeType::Pointer, RuntimeType::I64],
            result: Some(RuntimeType::Pointer),
        },
        RuntimeEntry {
            name: "aster_rt_string_from_ulong_temporary"@,
            parameters: seq![RuntimeType::Pointer, RuntimeType::I64],
            result: Some(RuntimeType::Pointer),
        },
        RuntimeEntry {
            name: "aster_rt_string_from_double"@,
            parameters: seq![RuntimeType::Pointer, RuntimeType::F64],
            result: Some(RuntimeType::Pointer),
        },
        RuntimeEntry {
            name: "aster_rt_string_from_double_temporary"@,
            parameters: seq![RuntimeType::Pointer, RuntimeType::F64],
            result: Some(RuntimeType::Pointer),
        },
        RuntimeEntry {
            name: "aster_rt_string_from_float"@,
            parameters: seq![RuntimeType::Pointer, RuntimeType::F32],
            result: Some(RuntimeType::Pointer),
        },
        RuntimeEntry {
            name: "aster_rt_string_from_float_temporary"@,
            parameters: seq![RuntimeType::Pointer, RuntimeType::F32],
            result: Some(RuntimeType::Pointer),
        },
        RuntimeEntry {
            name: "aster_rt_string_from_bool"@,
            parameters: seq![RuntimeType::Pointer, RuntimeType::I8],
            result: Some(RuntimeType::Pointer),
        },
        RuntimeEntry {
            name: "aster_rt_string_from_bool_temporary"@,
            parameters: seq![RuntimeType::Pointer, RuntimeType::I8],
            result: Some(RuntimeType::Pointer),
        },
        RuntimeEntry {
            name: "aster_rt_string_from_char"@,
            parameters: seq![RuntimeType::Pointer, RuntimeType::I32],
            result: Some(RuntimeType::Pointer),
        },
        RuntimeEntry {
            name: "aster_rt_string_from_char_temporary"@,
            parameters: seq![RuntimeType::Pointer, RuntimeType::I32],
            result: Some(RuntimeType::Pointer),
        },
        RuntimeEntry {
            name: "aster_rt_string_join"@,
            parameters: seq![RuntimeType::Pointer, RuntimeType::Pointer, RuntimeType::I32],
            result: Some(RuntimeType::Pointer),
        },
        RuntimeEntry {
            name: "aster_rt_string_join_temporary"@,
            parameters: seq![RuntimeType::Pointer, RuntimeType::Pointer, RuntimeType::I32],
            result: Some(RuntimeType::Pointer),
        },
    ]
}

fn export_text(functions: &mut Vec<RuntimeFunction>, addresses: &[usize])
    requires
        old(functions)@.len() + text_entries().len() <= addresses@.len(),
        placed(old(functions)@, addresses@),
    ensures
        final(functions)@.len() == old(functions)@.len() + text_entries().len(),
        placed(final(functions)@, addresses@),
        entries(final(functions)@) == entries(old(functions)@) + text_entries(),
{
    let p: Vec<RuntimeType> = vec![RuntimeType::Pointer, RuntimeType::I64];
    assert(p@ =~= text_entries()[0].parameters);
    export(functions, addresses, "aster_rt_string_from_long", p, Some(RuntimeType::Pointer));
    let p: Vec<RuntimeType> = vec![RuntimeType::Pointer, RuntimeType::I64];
    assert(p@ =~= text_entries()[1].parameters);
    export(functions, addresses, "aster_rt_string_from_long_temporary", p, Some(RuntimeType::Pointer));
    let p: Vec<RuntimeType> = vec![RuntimeType::Pointer, RuntimeType::I64];
    assert(p@ =~= text_entries()[2].parameters);
    export(functions, addresses, "aster_rt_string_from_ulong", p, Some(RuntimeType::Pointer));
    let p: Vec<RuntimeType> = vec![RuntimeType::Pointer, RuntimeType::I64];
    assert(p@ =~= text_entries()[3].parameters);
    export(functions, addresses, "aster_rt_string_from_ulong_temporary", p, Some(RuntimeType::Pointer));
    let p: Vec<RuntimeType> = vec![RuntimeType::Pointer, RuntimeType::F64];
    assert(p@ =~= text_entries()[4].parameters);
    export(functions, addresses, "aster_rt_string_from_double", p, Some(RuntimeType::Pointer));
    let p: Vec<RuntimeType> = vec![RuntimeType::Pointer, RuntimeType::F64];
    assert(p@ =~= text_entries()[5].parameters);
    export(functions, addresses, "aster_rt_string_from_double_temporary", p, Some(RuntimeType::Pointer));
    let p: Vec<RuntimeType> = vec![RuntimeType::Pointer, RuntimeType::F32];
    assert(p@ =~= text_entries()[6].parameters);
    export(functions, addresses, "aster_rt_string_from_float", p, Some(RuntimeType::Pointer));
    let p: Vec<RuntimeType> = vec![RuntimeType::Pointer, RuntimeType::F32];
    assert(p@ =~= text_entries()[7].parameters);
    export(functions, addresses, "aster_rt_string_from_float_temporary", p, Some(RuntimeType::Pointer));
    let p: Vec<RuntimeType> = vec![RuntimeType::Pointer, RuntimeType::I8];
    assert(p@ =~= text_entries()[8].parameters);
    export(functions, addresses, "aster_rt_string_from_bool", p, Some(RuntimeType::Pointer));
    let p: Vec<RuntimeType> = vec![RuntimeType::Pointer, RuntimeType::I8];
    assert(p@ =~= text_entries()[9].parameters);
    export(functions, addresses, "aster_rt_string_from_bool_temporary", p, Some(RuntimeType::Pointer));
    let p: Vec<RuntimeType> = vec![RuntimeType::Pointer, RuntimeType::I32];
    assert(p@ =~= text_entries()[10].parameters);
    export(functions, addresses, "aster_rt_string_from_char", p, Some(RuntimeType::Pointer));
    let p: Vec<RuntimeType> = vec![RuntimeType::Pointer, RuntimeType::I32];
    assert(p@ =~= text_entries()[11].parameters);
    export(functions, addresses, "aster_rt_string_from_char_temporary", p, Some(RuntimeType::Pointer));
    let p: Vec<RuntimeType> = vec![RuntimeType::Pointer, RuntimeType::Pointer, RuntimeType::I32];
    assert(p@ =~= text_entries()[12].parameters);
    export(functions, addresses, "aster_rt_string_join", p, Some(RuntimeType::Pointer));
    let p: Vec<RuntimeType> = vec![RuntimeType::Pointer, RuntimeType::Pointer, RuntimeType::I32];
    assert(p@ =~= text_entries()[13].parameters);
    export(functions, addresses, "aster_rt_string_join_temporary", p, Some(RuntimeType::Pointer));
    assert(entries(functions@) =~= entries(old(functions)@) + text_entries());
}

/// The functions for parsing.
pub open spec fn parse_entries() -> Seq<RuntimeEntry> {
    seq![
        RuntimeEntry {
            name: "aster_rt_string_try_parse_bool"@,
            parameters: seq![
                RuntimeType::Pointer,
                RuntimeType::Pointer,
                RuntimeType::Pointer,
                RuntimeType::I32,
                RuntimeType::I32,
                RuntimeType::I32,
                RuntimeType::I32,
            ],
            result: None,
        },
        RuntimeEntry {
            name: "aster_rt_string_try_parse_int"@,
            parameters: seq![
                RuntimeType::Pointer,
                RuntimeType::Pointer,
                RuntimeType::Pointer,
                RuntimeType::I32,
                RuntimeType::I32,
                RuntimeType::I32,
                RuntimeType::I32,
            ],
            result: None,
        },
        RuntimeEntry {
            name: "aster_rt_string_try_parse_uint"@,
            parameters: seq![
                RuntimeType::Pointer,
                RuntimeType::Pointer,
                RuntimeType::Pointer,
                RuntimeType::I32,
                RuntimeType::I32,
                RuntimeType::I32,
                RuntimeType::I32,
            ],
            result: None,
        },
        RuntimeEntry {
            name: "aster_rt_string_try_parse_long"@,
            parameters: seq![
                RuntimeType::Pointer,
                RuntimeType::Pointer,
                RuntimeType::Pointer,
                RuntimeType::I32,
                RuntimeType::I32,
                RuntimeType::I32,
                RuntimeType::I32,
            ],
            result: None,
        },
        RuntimeEntry {
            name: "aster_rt_string_try_parse_ulong"@,
            parameters: seq![
                RuntimeType::Pointer,
                RuntimeType::Pointer,
                RuntimeType::Pointer,
                RuntimeType::I32,
                RuntimeType::I32,
                RuntimeType::I32,
                RuntimeType::I32,
            ],
            result: None,
        },
        RuntimeEntry {
            name: "aster_rt_string_try_parse_float"@,
            parameters: seq![
                RuntimeType::Pointer,
                RuntimeType::Pointer,
                RuntimeType::Pointer,
                RuntimeType::I32,
                RuntimeType::I32,
                RuntimeType::I32,
                RuntimeType::I32,
            ],
            result: None,
        },
        RuntimeEntry {
            name: "aster_rt_string_try_parse_double"@,
            parameters: seq![
                RuntimeType::Pointer,
                RuntimeType::Pointer,
                RuntimeType::Pointer,
                RuntimeType::I32,
                RuntimeType::I32,
                RuntimeType::I32,
                RuntimeType::I32,
            ],
            result: None,
        },
    ]
}

fn export_parse(functions: &mut Vec<RuntimeFunction>, addresses: &[usize])
    requires
        old(functions)@.len() + parse_entries().len() <= addresses@.len(),
        placed(old(functions)@, addresses@),
    ensures
        final(functions)@.len() == old(functions)@.len() + parse_entries().len(),
        placed(final(functions)@, addresses@),
        entries(final(functions)@) == entries(old(functions)@) + parse_entries(),
{
    let p: Vec<RuntimeType> = vec![
        RuntimeType::Pointer,
        RuntimeType::Pointer,
        RuntimeType::Pointer,
        RuntimeType::I32,
        RuntimeType::I32,
        RuntimeType::I32,
        RuntimeType::I32,
    ];
    assert(p@ =~= parse_entries()[0].parameters);
    export(functions, addresses, "aster_rt_string_try_parse_bool", p, None);
    let p: Vec<RuntimeType> = vec![
        RuntimeType::Pointer,
        RuntimeType::Pointer,
        RuntimeType::Pointer,
        RuntimeType::I32,
        RuntimeType::I32,
        RuntimeType::I32,
        RuntimeType::I32,
    ];
    assert(p@ =~= parse_entries()[1].parameters);
    export(functions, addresses, "aster_rt_string_try_parse_int", p, None);
    let p: Vec<RuntimeType> = vec![
        RuntimeType::Pointer,
        RuntimeType::Pointer,
        RuntimeType::Pointer,
        RuntimeType::I32,
        RuntimeType::I32,
        RuntimeType::I32,
        RuntimeType::I32,
    ];
    assert(p@ =~= parse_entries()[2].parameters);
    export(functions, addresses, "aster_rt_string_try_parse_uint", p, None);
    let p: Vec<RuntimeType> = vec![
        RuntimeType::Pointer,
        RuntimeType::Pointer,
        RuntimeType::Pointer,
        RuntimeType::I32,
        RuntimeType::I32,
        RuntimeType::I32,
        RuntimeType::I32,
    ];
    assert(p@ =~= parse_entries()[3].parameters);
    export(functions, addresses, "aster_rt_string_try_parse_long", p, None);
    let p: Vec<RuntimeType> = vec![
        RuntimeType::Pointer,
        RuntimeType::Pointer,
        RuntimeType::Pointer,
        RuntimeType::I32,
        RuntimeType::I32,
        RuntimeType::I32,
        RuntimeType::I32,
    ];
    assert(p@ =~= parse_entries()[4].parameters);
    export(functions, addresses, "aster_rt_string_try_parse_ulong", p, None);
    let p: Vec<RuntimeType> = vec![
        RuntimeType::Pointer,
        RuntimeType::Pointer,
        RuntimeType::Pointer,
        RuntimeType::I32,
        RuntimeType::I32,
        RuntimeType::I32,
        RuntimeType::I32,
    ];
    assert(p@ =~= parse_entries()[5].parameters);
    export(functions, addresses, "aster_rt_string_try_parse_float", p, None);
    let p: Vec<RuntimeType> = vec![
        RuntimeType::Pointer,
        RuntimeType::Pointer,
        RuntimeType::Pointer,
        RuntimeType::I32,
        RuntimeType::I32,
        RuntimeType::I32,
        RuntimeType::I32,
    ];
    assert(p@ =~= parse_entries()[6].parameters);
    export(functions, addresses, "aster_rt_string_try_parse_double", p, None);
    assert(entries(functions@) =~= entries(old(functions)@) + parse_entries());
}

/// The functions for the terminal and files.
pub open spec fn io_entries() -> Seq<RuntimeEntry> {
    seq![
        RuntimeEntry {
            name: "aster_rt_io_write"@,
            parameters: seq![RuntimeType::Pointer, RuntimeType::Pointer],
            result: None,
        },
        RuntimeEntry {
            name: "aster_rt_io_write_line"@,
            parameters: seq![RuntimeType::Pointer, RuntimeType::Pointer],
            result: None,
        },
        RuntimeEntry {
            name: "aster_rt_io_read_line"@,
            parameters: seq![
                RuntimeType::Pointer,
                RuntimeType::Pointer,
                RuntimeType::I32,
                RuntimeType::I32,
                RuntimeType::I32,
                RuntimeType::I32,
            ],
            result: None,
        },
        RuntimeEntry {
            name: "aster_rt_io_read_line_temporary"@,
            parameters: seq![
                RuntimeType::Pointer,
                RuntimeType::Pointer,
                RuntimeType::I32,
                RuntimeType::I32,
                RuntimeType::I32,
                RuntimeType::I32,
            ],
            result: None,
        },
        RuntimeEntry {
            name: "aster_rt_io_read_all_text"@,
            parameters: seq![
                RuntimeType::Pointer,
                RuntimeType::Pointer,
                RuntimeType::Pointer,
                RuntimeType::I32,
                RuntimeType::I32,
                RuntimeType::I32,
                RuntimeType::I32,
                RuntimeType::I32,
                RuntimeType::I32,
                RuntimeType::I32,
                RuntimeType::Pointer,
            ],
            result: None,
        },
        RuntimeEntry {
            name: "aster_rt_io_read_all_text_temporary"@,
            parameters: seq![
                RuntimeType::Pointer,
                RuntimeType::Pointer,
                RuntimeType::Pointer,
                RuntimeType::I32,
                RuntimeType::I32,
                RuntimeType::I32,
                RuntimeType::I32,
                RuntimeType::I32,
                RuntimeType::I32,
                RuntimeType::I32,
                RuntimeType::Pointer,
            ],
            result: None,
        },
        RuntimeEntry {
            name: "aster_rt_io_write_all_text"@,
            parameters: seq![
                RuntimeType::Pointer,
                RuntimeType::Pointer,
                RuntimeType::Pointer,
                RuntimeType::Pointer,
                RuntimeType::I32,
                RuntimeType::I32,
                RuntimeType::I32,
                RuntimeType::I32,
                RuntimeType::I32,
                RuntimeType::I32,
                RuntimeType::I32,
                RuntimeType::Pointer,
            ],
            result: None,
        },
        RuntimeEntry {
            name: "aster_rt_io_list_files"@,
            parameters: seq![
                RuntimeType::Pointer,
                RuntimeType::Pointer,
                RuntimeType::Pointer,
                RuntimeType::I32,
                RuntimeType::I32,
                RuntimeType::I32,
                RuntimeType::I32,
                RuntimeType::I32,
                RuntimeType::I32,
                RuntimeType::I32,
                RuntimeType::Pointer,
            ],
            result: None,
        },
        RuntimeEntry {
            name: "aster_rt_io_list_files_temporary"@,
            parameters: seq![
                RuntimeType::Pointer,
                RuntimeType::Pointer,
                RuntimeType::Pointer,
                RuntimeType::I32,
                RuntimeType::I32,
                RuntimeType::I32,
                RuntimeType::I32,
                RuntimeType::I32,
                RuntimeType::I32,
                RuntimeType::I32,
                RuntimeType::Pointer,
            ],
            result: None,
        },
    ]
}

fn export_io(functions: &mut Vec<RuntimeFunction>, addresses: &[usize])
    requires
        old(functions)@.len() + io_entries().len() <= addresses@.len(),
        placed(old(functions)@, addresses@),
    ensures
        final(functions)@.len() == old(functions)@.len() + io_entries().len(),
        placed(final(functions)@, addresses@),
        entries(final(functions)@) == entries(old(functions)@) + io_entries(),
{
    let p: Vec<RuntimeType> = vec![RuntimeType::Pointer, RuntimeType::Pointer];
    assert(p@ =~= io_entries()[0].parameters);
    export(functions, addresses, "aster_rt_io_write", p, None);
    let p: Vec<RuntimeType> = vec![RuntimeType::Pointer, RuntimeType::Pointer];
    assert(p@ =~= io_entries()[1].parameters);
    export(functions, addresses, "aster_rt_io_write_line", p, None);
    let p: Vec<RuntimeType> = vec![
        RuntimeType::Pointer,
        RuntimeType::Pointer,
        RuntimeType::I32,
        RuntimeType::I32,
        RuntimeType::I32,
        RuntimeType::I32,
    ];
    assert(p@ =~= io_entries()[2].parameters);
    export(functions, addresses, "aster_rt_io_read_line", p, None);
    let p: Vec<RuntimeType> = vec![
        RuntimeType::Pointer,
        RuntimeType::Pointer,
        RuntimeType::I32,
        RuntimeType::I32,
        RuntimeType::I32,
        RuntimeType::I32,
    ];
    assert(p@ =~= io_entries()[3].parameters);
    export(functions, addresses, "aster_rt_io_read_line_temporary", p, None);
    let p: Vec<RuntimeType> = vec![
        RuntimeType::Pointer,
        RuntimeType::Pointer,
        RuntimeType::Pointer,
        RuntimeType::I32,
        RuntimeType::I32,
        RuntimeType::I32,
        RuntimeType::I32,
        RuntimeType::I32,
        RuntimeType::I32,
        RuntimeType::I32,
        RuntimeType::Pointer,
    ];
    assert(p@ =~= io_entries()[4].parameters);
    export(functions, addresses, "aster_rt_io_read_all_text", p, None);
    let p: Vec<RuntimeType> = vec![
        RuntimeType::Pointer,
        RuntimeType::Pointer,
        RuntimeType::Pointer,
        RuntimeType::I32,
        RuntimeType::I32,
        RuntimeType::I32,
        RuntimeType::I32,
        RuntimeType::I32,
        RuntimeType::I32,
        RuntimeType::I32,
        RuntimeType::Pointer,
    ];
    assert(p@ =~= io_entries()[5].parameters);
    export(functions, addresses, "aster_rt_io_read_all_text_temporary", p, None);
    let p: Vec<RuntimeType> = vec![
        RuntimeType::Pointer,
        RuntimeType::Pointer,
        RuntimeType::Pointer,
        RuntimeType::Pointer,
        RuntimeType::I32,
        RuntimeType::I32,
        RuntimeType::I32,
        RuntimeType::I32,
        RuntimeType::I32,
        RuntimeType::I32,
        RuntimeType::I32,
        RuntimeType::Pointer,
    ];
    assert(p@ =~= io_entries()[6].parameters);
    export(functions, addresses, "aster_rt_io_write_all_text", p, None);
    let p: Vec<RuntimeType> = vec![
        RuntimeType::Pointer,
        RuntimeType::Pointer,
        RuntimeType::Pointer,
        RuntimeType::I32,
        RuntimeType::I32,
        RuntimeType::I32,
        RuntimeType::I32,
        RuntimeType::I32,
        RuntimeType::I32,
        RuntimeType::I32,
        RuntimeType::Pointer,
    ];
    assert(p@ =~= io_entries()[7].parameters);
    export(functions, addresses, "aster_rt_io_list_files", p, None);
    let p: Vec<RuntimeType> = vec![
        RuntimeType::Pointer,
        RuntimeType::Pointer,
        RuntimeType::Pointer,
        RuntimeType::I32,
        RuntimeType::I32,
        RuntimeType::I32,
        RuntimeType::I32,
        RuntimeType::I32,
        RuntimeType::I32,
        RuntimeType::I32,
        RuntimeType::Pointer,
    ];
    assert(p@ =~= io_entries()[8].parameters);
    export(functions, addresses, "aster_rt_io_list_files_temporary", p, None);
    assert(entries(functions@) =~= entries(old(functions)@) + io_entries());
}

/// The functions for arithmetic errors.
pub open spec fn fault_entries() -> Seq<RuntimeEntry> {
    seq![
        RuntimeEntry {
            name: "aster_rt_math_domain_error"@,
            parameters: seq![RuntimeType::Pointer, RuntimeType::I32],
            result: None,
        },
        RuntimeEntry {
            name: "aster_rt_integer_arithmetic_error"@,
            parameters: seq![RuntimeType::Pointer, RuntimeType::I32],
            result: None,
        },
    ]
}

fn export_fault(functions: &mut Vec<RuntimeFunction>, addresses: &[usize])
    requires
        old(functions)@.len() + fault_entries().len() <= addresses@.len(),
        placed(old(functions)@, addresses@),
    ensures
        final(functions)@.len() == old(functions)@.len() + fault_entries().len(),
        placed(final(functions)@, addresses@),
        entries(final(functions)@) == entries(old(functions)@) + fault_entries(),
{
    let p: Vec<RuntimeType> = vec![RuntimeType::Pointer, RuntimeType::I32];
    assert(p@ =~= fault_entries()[0].parameters);
    export(functions, addresses, "aster_rt_math_domain_error", p, None);
    let p: Vec<RuntimeType> = vec![RuntimeType::Pointer, RuntimeType::I32];
    assert(p@ =~= fault_entries()[1].parameters);
    export(functions, addresses, "aster_rt_integer_arithmetic_error", p, None);
    assert(entries(functions@) =~= entries(old(functions)@) + fault_entries());
}

/// The functions for dictionaries.
pub open spec fn dictionary_entries() -> Seq<RuntimeEntry> {
    seq![
        RuntimeEntry {
            name: "aster_rt_dictionary_new"@,
            parameters: seq![
                RuntimeType::Pointer,
                RuntimeType::I32,
                RuntimeType::I32,
                RuntimeType::I32,
                RuntimeType::I64,
                RuntimeType::I32,
                RuntimeType::I32,
                RuntimeType::I64,
            ],
            result: Some(RuntimeType::Pointer),
        },
        RuntimeEntry {
            name: "aster_rt_dictionary_new_temporary"@,
            parameters: seq![
                RuntimeType::Pointer,
                RuntimeType::I32,
                RuntimeType::I32,
                RuntimeType::I32,
                RuntimeType::I64,
                RuntimeType::I32,
                RuntimeType::I32,
                RuntimeType::I64,
            ],
            result: Some(RuntimeType::Pointer),
        },
        RuntimeEntry {
            name: "aster_rt_dictionary_length"@,
            parameters: seq![RuntimeType::Pointer, RuntimeType::Pointer],
            result: Some(RuntimeType::I32),
        },
        RuntimeEntry {
            name: "aster_rt_dictionary_add"@,
            parameters: seq![
                RuntimeType::Pointer,
                RuntimeType::Pointer,
                RuntimeType::I32,
                RuntimeType::I32,
                RuntimeType::I32,
                RuntimeType::I64,
                RuntimeType::I32,
                RuntimeType::I32,
                RuntimeType::I64,
                RuntimeType::Pointer,
                RuntimeType::Pointer,
            ],
            result: Some(RuntimeType::I8),
        },
        RuntimeEntry {
            name: "aster_rt_dictionary_set"@,
            parameters: seq![
                RuntimeType::Pointer,
                RuntimeType::Pointer,
                RuntimeType::I32,
                RuntimeType::I32,
                RuntimeType::I32,
                RuntimeType::I64,
                RuntimeType::I32,
                RuntimeType::I32,
                RuntimeType::I64,
                RuntimeType::Pointer,
                RuntimeType::Pointer,
            ],
            result: Some(RuntimeType::I8),
        },
        RuntimeEntry {
            name: "aster_rt_dictionary_contains_key"@,
            parameters: seq![
                RuntimeType::Pointer,
                RuntimeType::Pointer,
                RuntimeType::I32,
                RuntimeType::I32,
                RuntimeType::I32,
                RuntimeType::I64,
                RuntimeType::I32,
                RuntimeType::I32,
                RuntimeType::I64,
                RuntimeType::Pointer,
            ],
            result: Some(RuntimeType::I8),
        },
        RuntimeEntry {
            name: "aster_rt_dictionary_remove"@,
            parameters: seq![
                RuntimeType::Pointer,
                RuntimeType::Pointer,
                RuntimeType::I32,
                RuntimeType::I32,
                RuntimeType::I32,
                RuntimeType::I64,
                RuntimeType::I32,
                RuntimeType::I32,
                RuntimeType::I64,
                RuntimeType::Pointer,
            ],
            result: Some(RuntimeType::I8),
        },
        RuntimeEntry {
            name: "aster_rt_dictionary_try_get"@,
            parameters: seq![
                RuntimeType::Pointer,
                RuntimeType::Pointer,
                RuntimeType::I32,
                RuntimeType::I32,
                RuntimeType::I32,
                RuntimeType::I64,
                RuntimeType::I32,
                RuntimeType::I32,
                RuntimeType::I64,
                RuntimeType::Pointer,
                RuntimeType::Pointer,
                RuntimeType::I32,
                RuntimeType::I32,
                RuntimeType::I32,
                RuntimeType::I32,
            ],
            result: None,
        },
        RuntimeEntry {
            name: "aster_rt_dictionary_entries"@,
            parameters: seq![
                RuntimeType::Pointer,
                RuntimeType::Pointer,
                RuntimeType::I32,
                RuntimeType::I32,
                RuntimeType::I32,
                RuntimeType::I64,
                RuntimeType::I32,
                RuntimeType::I32,
                RuntimeType::I64,
                RuntimeType::I32,
                RuntimeType::I32,
                RuntimeType::I32,
                RuntimeType::I8,
            ],
            result: Some(RuntimeType::Pointer),
        },
    ]
}

fn export_dictionary(functions: &mut Vec<RuntimeFunction>, addresses: &[usize])
    requires
        old(functions)@.len() + dictionary_entries().len() <= addresses@.len(),
        placed(old(functions)@, addresses@),
    ensures
        final(functions)@.len() == old(functions)@.len() + dictionary_entries().len(),
        placed(final(functions)@, addresses@),
        entries(final(functions)@) == entries(old(functions)@) + dictionary_entries(),
{
    let p: Vec<RuntimeType> = vec![
        RuntimeType::Pointer,
        RuntimeType::I32,
        RuntimeType::I32,
        RuntimeType::I32,
        RuntimeType::I64,
        RuntimeType::I32,
        RuntimeType::I32,
        RuntimeType::I64,
    ];
    assert(p@ =~= dictionary_entries()[0].parameters);
    export(functions, addresses, "aster_rt_dictionary_new", p, Some(RuntimeType::Pointer));
    let p: Vec<RuntimeType> = vec![
        RuntimeType::Pointer,
        RuntimeType::I32,
        RuntimeType::I32,
        RuntimeType::I32,
        RuntimeType::I64,
        RuntimeType::I32,
        RuntimeType::I32,
        RuntimeType::I64,
    ];
    assert(p@ =~= dictionary_entries()[1].parameters);
    export(functions, addresses, "aster_rt_dictionary_new_temporary", p, Some(RuntimeType::Pointer));
    let p: Vec<RuntimeType> = vec![RuntimeType::Pointer, RuntimeType::Pointer];
    assert(p@ =~= dictionary_entries()[2].parameters);
    export(functions, addresses, "aster_rt_dictionary_length", p, Some(RuntimeType::I32));
    let p: Vec<RuntimeType> = vec![
        RuntimeType::Pointer,
        RuntimeType::Pointer,
        RuntimeType::I32,
        RuntimeType::I32,
        RuntimeType::I32,
        RuntimeType::I64,
        RuntimeType::I32,
        RuntimeType::I32,
        RuntimeType::I64,
        RuntimeType::Pointer,
        RuntimeType::Pointer,
    ];
    assert(p@ =~= dictionary_entries()[3].parameters);
    export(functions, addresses, "aster_rt_dictionary_add", p, Some(RuntimeType::I8));
    let p: Vec<RuntimeType> = vec![
        RuntimeType::Pointer,
        RuntimeType::Pointer,
        RuntimeType::I32,
        RuntimeType::I32,
        RuntimeType::I32,
        RuntimeType::I64,
        RuntimeType::I32,
        RuntimeType::I32,
        RuntimeType::I64,
        RuntimeType::Pointer,
        RuntimeType::Pointer,
    ];
    assert(p@ =~= dictionary_entries()[4].parameters);
    export(functions, addresses, "aster_rt_dictionary_set", p, Some(RuntimeType::I8));
    let p: Vec<RuntimeType> = vec![
        RuntimeType::Pointer,
        RuntimeType::Pointer,
        RuntimeType::I32,
        RuntimeType::I32,
        RuntimeType::I32,
        RuntimeType::I64,
        RuntimeType::I32,
        RuntimeType::I32,
        RuntimeType::I64,
        RuntimeType::Pointer,
    ];
    assert(p@ =~= dictionary_entries()[5].parameters);
    export(functions, addresses, "aster_rt_dictionary_contains_key", p, Some(RuntimeType::I8));
    let p: Vec<RuntimeType> = vec![
        RuntimeType::Pointer,
        RuntimeType::Pointer,
        RuntimeType::I32,
        RuntimeType::I32,
        RuntimeType::I32,
        RuntimeType::I64,
        RuntimeType::I32,
        RuntimeType::I32,
        RuntimeType::I64,
        RuntimeType::Pointer,
    ];
    assert(p@ =~= dictionary_entries()[6].parameters);
    export(functions, addresses, "aster_rt_dictionary_remove", p, Some(RuntimeType::I8));
    let p: Vec<RuntimeType> = vec![
        RuntimeType::Pointer,
        RuntimeType::Pointer,
        RuntimeType::I32,
        RuntimeType::I32,
        RuntimeType::I32,
        RuntimeType::I64,
        RuntimeType::I32,
        RuntimeType::I32,
        RuntimeType::I64,
        RuntimeType::Pointer,
        RuntimeType::Pointer,
        RuntimeType::I32,
        RuntimeType::I32,
        RuntimeType::I32,
        RuntimeType::I32,
    ];
    assert(p@ =~= dictionary_entries()[7].parameters);
    export(functions, addresses, "aster_rt_dictionary_try_get", p, None);
    let p: Vec<RuntimeType> = vec![
        RuntimeType::Pointer,
        RuntimeType::Pointer,
        RuntimeType::I32,
        RuntimeType::I32,
        RuntimeType::I32,
        RuntimeType::I64,
        RuntimeType::I32,
        RuntimeType::I32,
        RuntimeType::I64,
        RuntimeType::I32,
        RuntimeType::I32,
        RuntimeType::I32,
        RuntimeType::I8,
    ];
    assert(p@ =~= dictionary_entries()[8].parameters);
    export(functions, addresses, "aster_rt_dictionary_entries", p, Some(RuntimeType::Pointer));
    assert(entries(functions@) =~= entries(old(functions)@) + dictionary_entries());
}

/// The functions for editing strings.
pub open spec fn edit_entries() -> Seq<RuntimeEntry> {
    seq![
        RuntimeEntry {
            name: "aster_rt_string_last_index_of"@,
            parameters: seq![RuntimeType::Pointer, RuntimeType::Pointer, RuntimeType::Pointer],
            result: Some(RuntimeType::I32),
        },
        RuntimeEntry {
            name: "aster_rt_string_trim"@,
            parameters: seq![RuntimeType::Pointer, RuntimeType::Pointer],
            result: Some(RuntimeType::Pointer),
        },
        RuntimeEntry {
            name: "aster_rt_string_trim_temporary"@,
            parameters: seq![RuntimeType::Pointer, RuntimeType::Pointer],
            result: Some(RuntimeType::Pointer),
        },
        RuntimeEntry {
            name: "aster_rt_string_trim_start"@,
            parameters: seq![RuntimeType::Pointer, RuntimeType::Pointer],
            result: Some(RuntimeType::Pointer),
        },
        RuntimeEntry {
            name: "aster_rt_string_trim_start_temporary"@,
            parameters: seq![RuntimeType::Pointer, RuntimeType::Pointer],
            result: Some(RuntimeType::Pointer),
        },
        RuntimeEntry {
            name: "aster_rt_string_trim_end"@,
            parameters: seq![RuntimeType::Pointer, RuntimeType::Pointer],
            result: Some(RuntimeType::Pointer),
        },
        RuntimeEntry {
            name: "aster_rt_string_trim_end_temporary"@,
            parameters: seq![RuntimeType::Pointer, RuntimeType::Pointer],
            result: Some(RuntimeType::Pointer),
        },
        RuntimeEntry {
            name: "aster_rt_string_join_array"@,
            parameters: seq![RuntimeType::Pointer, RuntimeType::Pointer, RuntimeType::Pointer],
            result: Some(RuntimeType::Pointer),
        },
        RuntimeEntry {
            name: "aster_rt_string_join_array_temporary"@,
            parameters: seq![RuntimeType::Pointer, RuntimeType::Pointer, RuntimeType::Pointer],
            result: Some(RuntimeType::Pointer),
        },
        RuntimeEntry {
            name: "aster_rt_string_concat_array"@,
            parameters: seq![RuntimeType::Pointer, RuntimeType::Pointer],
            result: Some(RuntimeType::Pointer),
        },
        RuntimeEntry {
            name: "aster_rt_string_concat_array_temporary"@,
            parameters: seq![RuntimeType::Pointer, RuntimeType::Pointer],
            result: Some(RuntimeType::Pointer),
        },
        RuntimeEntry {
            name: "aster_rt_string_repeat"@,
            parameters: seq![RuntimeType::Pointer, RuntimeType::Pointer, RuntimeType::I32],
            result: Some(RuntimeType::Pointer),
        },
        RuntimeEntry {
            name: "aster_rt_string_repeat_temporary"@,
            parameters: seq![RuntimeType::Pointer, RuntimeType::Pointer, RuntimeType::I32],
            result: Some(RuntimeType::Pointer),
        },
        RuntimeEntry {
            name: "aster_rt_string_to_chars"@,
            parameters: seq![RuntimeType::Pointer, RuntimeType::Pointer],
            result: Some(RuntimeType::Pointer),
        },
        RuntimeEntry {
            name: "aster_rt_string_to_chars_temporary"@,
            parameters: seq![RuntimeType::Pointer, RuntimeType::Pointer],
            result: Some(RuntimeType::Pointer),
        },
        RuntimeEntry {
            name: "aster_rt_string_from_chars"@,
            parameters: seq![RuntimeType::Pointer, RuntimeType::Pointer],
            result: Some(RuntimeType::Pointer),
        },
        RuntimeEntry {
            name: "aster_rt_string_from_chars_temporary"@,
            parameters: seq![RuntimeType::Pointer, RuntimeType::Pointer],
            result: Some(RuntimeType::Pointer),
        },
        RuntimeEntry {
            name: "aster_rt_string_replace"@,
            parameters: seq![
                RuntimeType::Pointer,
                RuntimeType::Pointer,
                RuntimeType::Pointer,
                RuntimeType::Pointer,
            ],
            result: Some(RuntimeType::Pointer),
        },
        RuntimeEntry {
            name: "aster_rt_string_replace_temporary"@,
            parameters: seq![
                RuntimeType::Pointer,
                RuntimeType::Pointer,
                RuntimeType::Pointer,
                RuntimeType::Pointer,
            ],
            result: Some(RuntimeType::Pointer),
        },
        RuntimeEntry {
            name: "aster_rt_string_split"@,
            parameters: seq![RuntimeType::Pointer, RuntimeType::Pointer, RuntimeType::Pointer],
            result: Some(RuntimeType::Pointer),
        },
        RuntimeEntry {
            name: "aster_rt_string_split_temporary"@,
            parameters: seq![RuntimeType::Pointer, RuntimeType::Pointer, RuntimeType::Pointer],
            result: Some(RuntimeType::Pointer),
        },
    ]
}

fn export_edit(functions: &mut Vec<RuntimeFunction>, addresses: &[usize])
    requires
        old(functions)@.len() + edit_entries().len() <= addresses@.len(),
        placed(old(functions)@, addresses@),
    ensures
        final(functions)@.len() == old(functions)@.len() + edit_entries().len(),
        placed(final(functions)@, addresses@),
        entries(final(functions)@) == entries(old(functions)@) + edit_entries(),
{
    let p: Vec<RuntimeType> = vec![RuntimeType::Pointer, RuntimeType::Pointer, RuntimeType::Pointer];
    assert(p@ =~= edit_entries()[0].parameters);
    export(functions, addresses, "aster_rt_string_last_index_of", p, Some(RuntimeType::I32));
    let p: Vec<RuntimeType> = vec![RuntimeType::Pointer, RuntimeType::Pointer];
    assert(p@ =~= edit_entries()[1].parameters);
    export(functions, addresses, "aster_rt_string_trim", p, Some(RuntimeType::Pointer));
    let p: Vec<RuntimeType> = vec![RuntimeType::Pointer, RuntimeType::Pointer];
    assert(p@ =~= edit_entries()[2].parameters);
    export(functions, addresses, "aster_rt_string_trim_temporary", p, Some(RuntimeType::Pointer));
    let p: Vec<RuntimeType> = vec![RuntimeType::Pointer, RuntimeType::Pointer];
    assert(p@ =~= edit_entries()[3].parameters);
    export(functions, addresses, "aster_rt_string_trim_start", p, Some(RuntimeType::Pointer));
    let p: Vec<RuntimeType> = vec![RuntimeType::Pointer, RuntimeType::Pointer];
    assert(p@ =~= edit_entries()[4].parameters);
    export(functions, addresses, "aster_rt_string_trim_start_temporary", p, Some(RuntimeType::Pointer));
    let p: Vec<RuntimeType> = vec![RuntimeType::Pointer, RuntimeType::Pointer];
    assert(p@ =~= edit_entries()[5].parameters);
    export(functions, addresses, "aster_rt_string_trim_end", p, Some(RuntimeType::Pointer));
    let p: Vec<RuntimeType> = vec![RuntimeType::Pointer, RuntimeType::Pointer];
    assert(p@ =~= edit_entries()[6].parameters);
    export(functions, addresses, "aster_rt_string_trim_end_temporary", p, Some(RuntimeType::Pointer));
    let p: Vec<RuntimeType> = vec![RuntimeType::Pointer, RuntimeType::Pointer, RuntimeType::Pointer];
    assert(p@ =~= edit_entries()[7].parameters);
    export(functions, addresses, "aster_rt_string_join_array", p, Some(RuntimeType::Pointer));
    let p: Vec<RuntimeType> = vec![RuntimeType::Pointer, RuntimeType::Pointer, RuntimeType::Pointer];
    assert(p@ =~= edit_entries()[8].parameters);
    export(functions, addresses, "aster_rt_string_join_array_temporary", p, Some(RuntimeType::Pointer));
    let p: Vec<RuntimeType> = vec![RuntimeType::Pointer, RuntimeType::Pointer];
    assert(p@ =~= edit_entries()[9].parameters);
    export(functions, addresses, "aster_rt_string_concat_array", p, Some(RuntimeType::Pointer));
    let p: Vec<RuntimeType> = vec![RuntimeType::Pointer, RuntimeType::Pointer];
    assert(p@ =~= edit_entries()[10].parameters);
    export(functions, addresses, "aster_rt_string_concat_array_temporary", p, Some(RuntimeType::Pointer));
    let p: Vec<RuntimeType> = vec![RuntimeType::Pointer, RuntimeType::Pointer, RuntimeType::I32];
    assert(p@ =~= edit_entries()[11].parameters);
    export(functions, addresses, "aster_rt_string_repeat", p, Some(RuntimeType::Pointer));
    let p: Vec<RuntimeType> = vec![RuntimeType::Pointer, RuntimeType::Pointer, RuntimeType::I32];
    assert(p@ =~= edit_entries()[12].parameters);
    export(functions, addresses, "aster_rt_string_repeat_temporary", p, Some(RuntimeType::Pointer));
    let p: Vec<RuntimeType> = vec![RuntimeType::Pointer, RuntimeType::Pointer];
    assert(p@ =~= edit_entries()[13].parameters);
    export(functions, addresses, "aster_rt_string_to_chars", p, Some(RuntimeType::Pointer));
    let p: Vec<RuntimeType> = vec![RuntimeType::Pointer, RuntimeType::Pointer];
    assert(p@ =~= edit_entries()[14].parameters);
    export(functions, addresses, "aster_rt_string_to_chars_temporary", p, Some(RuntimeType::Pointer));
    let p: Vec<RuntimeType> = vec![RuntimeType::Pointer, RuntimeType::Pointer];
    assert(p@ =~= edit_entries()[15].parameters);
    export(functions, addresses, "aster_rt_string_from_chars", p, Some(RuntimeType::Pointer));
    let p: Vec<RuntimeType> = vec![RuntimeType::Pointer, RuntimeType::Pointer];
    assert(p@ =~= edit_entries()[16].parameters);
    export(functions, addresses, "aster_rt_string_from_chars_temporary", p, Some(RuntimeType::Pointer));
    let p: Vec<RuntimeType> = vec![
        RuntimeType::Pointer,
        RuntimeType::Pointer,
        RuntimeType::Pointer,
        RuntimeType::Pointer,
    ];
    assert(p@ =~= edit_entries()[17].parameters);
    export(functions, addresses, "aster_rt_string_replace", p, Some(RuntimeType::Pointer));
    let p: Vec<RuntimeType> = vec![
        RuntimeType::Pointer,
        RuntimeType::Pointer,
        RuntimeType::Pointer,
        RuntimeType::Pointer,
    ];
    assert(p@ =~= edit_entries()[18].parameters);
    export(functions, addresses, "aster_rt_string_replace_temporary", p, Some(RuntimeType::Pointer));
    let p: Vec<RuntimeType> = vec![RuntimeType::Pointer, RuntimeType::Pointer, RuntimeType::Pointer];
    assert(p@ =~= edit_entries()[19].parameters);
    export(functions, addresses, "aster_rt_string_split", p, Some(RuntimeType::Pointer));
    let p: Vec<RuntimeType> = vec![RuntimeType::Pointer, RuntimeType::Pointer, RuntimeType::Pointer];
    assert(p@ =~= edit_entries()[20].parameters);
    export(functions, addresses, "aster_rt_string_split_temporary", p, Some(RuntimeType::Pointer));
    assert(entries(functions@) =~= entries(old(functions)@) + edit_entries());
}

/// The functions for parsing characters and narrow integers.
pub open spec fn narrow_parse_entries() -> Seq<RuntimeEntry> {
    seq![
        RuntimeEntry {
            name: "aster_rt_string_try_parse_char"@,
            parameters: seq![
                RuntimeType::Pointer,
                RuntimeType::Pointer,
                RuntimeType::Pointer,
                RuntimeType::I32,
                RuntimeType::I32,
                RuntimeType::I32,
                RuntimeType::I32,
            ],
            result: None,
        },
        RuntimeEntry {
            name: "aster_rt_string_try_parse_sbyte"@,
            parameters: seq![
                RuntimeType::Pointer,
                RuntimeType::Pointer,
                RuntimeType::Pointer,
                RuntimeType::I32,
                RuntimeType::I32,
                RuntimeType::I32,
                RuntimeType::I32,
            ],
            result: None,
        },
        RuntimeEntry {
            name: "aster_rt_string_try_parse_byte"@,
            parameters: seq![
                RuntimeType::Pointer,
                RuntimeType::Pointer,
                RuntimeType::Pointer,
                RuntimeType::I32,
                RuntimeType::I32,
                RuntimeType::I32,
                RuntimeType::I32,
            ],
            result: None,
        },
        RuntimeEntry {
            name: "aster_rt_string_try_parse_short"@,
            parameters: seq![
                RuntimeType::Pointer,
                RuntimeType::Pointer,
                RuntimeType::Pointer,
                RuntimeType::I32,
                RuntimeType::I32,
                RuntimeType::I32,
                RuntimeType::I32,
            ],
            result: None,
        },
        RuntimeEntry {
            name: "aster_rt_string_try_parse_ushort"@,
            parameters: seq![
                RuntimeType::Pointer,
                RuntimeType::Pointer,
                RuntimeType::Pointer,
                RuntimeType::I32,
                RuntimeType::I32,
                RuntimeType::I32,
                RuntimeType::I32,
            ],
            result: None,
        },
    ]
}

fn export_narrow_parse(functions: &mut Vec<RuntimeFunction>, addresses: &[usize])
    requires
        old(functions)@.len() + narrow_parse_entries().len() <= addresses@.len(),
        placed(old(functions)@, addresses@),
    ensures
        final(functions)@.len() == old(functions)@.len() + narrow_parse_entries().len(),
        placed(final(functions)@, addresses@),
        entries(final(functions)@) == entries(old(functions)@) + narrow_parse_entries(),
{
    let p: Vec<RuntimeType> = vec![
        RuntimeType::Pointer,
        RuntimeType::Pointer,
        RuntimeType::Pointer,
        RuntimeType::I32,
        RuntimeType::I32,
        RuntimeType::I32,
        RuntimeType::I32,
    ];
    assert(p@ =~= narrow_parse_entries()[0].parameters);
    export(functions, addresses, "aster_rt_string_try_parse_char", p, None);
    let p: Vec<RuntimeType> = vec![
        RuntimeType::Pointer,
        RuntimeType::Pointer,
        RuntimeType::Pointer,
        RuntimeType::I32,
        RuntimeType::I32,
        RuntimeType::I32,
        RuntimeType::I32,
    ];
    assert(p@ =~= narrow_parse_entries()[1].parameters);
    export(functions, addresses, "aster_rt_string_try_parse_sbyte", p, None);
    let p: Vec<RuntimeType> = vec![
        RuntimeType::Pointer,
        RuntimeType::Pointer,
        RuntimeType::Pointer,
        RuntimeType::I32,
        RuntimeType::I32,
        RuntimeType::I32,
        RuntimeType::I32,
    ];
    assert(p@ =~= narrow_parse_entries()[2].parameters);
    export(functions, addresses, "aster_rt_string_try_parse_byte", p, None);
    let p: Vec<RuntimeType> = vec![
        RuntimeType::Pointer,
        RuntimeType::Pointer,
        RuntimeType::Pointer,
        RuntimeType::I32,
        RuntimeType::I32,
        RuntimeType::I32,
        RuntimeType::I32,
    ];
    assert(p@ =~= narrow_parse_entries()[3].parameters);
    export(functions, addresses, "aster_rt_string_try_parse_short", p, None);
    let p: Vec<RuntimeType> = vec![
        RuntimeType::Pointer,
        RuntimeType::Pointer,
        RuntimeType::Pointer,
        RuntimeType::I32,
        RuntimeType::I32,
        RuntimeType::I32,
        RuntimeType::I32,
    ];
    assert(p@ =~= narrow_parse_entries()[4].parameters);
    export(functions, addresses, "aster_rt_string_try_parse_ushort", p, None);
    assert(entries(functions@) =~= entries(old(functions)@) + narrow_parse_entries());
}

/// The functions for directories and paths.
pub open spec fn path_entries() -> Seq<RuntimeEntry> {
    seq![
        RuntimeEntry {
            name: "aster_rt_io_list_directories"@,
            parameters: seq![
                RuntimeType::Pointer,
                RuntimeType::Pointer,
                RuntimeType::Pointer,
                RuntimeType::I32,
                RuntimeType::I32,
                RuntimeType::I32,
                RuntimeType::I32,
                RuntimeType::I32,
                RuntimeType::I32,
                RuntimeType::I32,
                RuntimeType::Pointer,
            ],
            result: None,
        },
        RuntimeEntry {
            name: "aster_rt_io_list_directories_temporary"@,
            parameters: seq![
                RuntimeType::Pointer,
                RuntimeType::Pointer,
                RuntimeType::Pointer,
                RuntimeType::I32,
                RuntimeType::I32,
                RuntimeType::I32,
                RuntimeType::I32,
                RuntimeType::I32,
                RuntimeType::I32,
                RuntimeType::I32,
                RuntimeType::Pointer,
            ],
            result: None,
        },
        RuntimeEntry {
            name: "aster_rt_io_append_all_text"@,
            parameters: seq![
                RuntimeType::Pointer,
                RuntimeType::Pointer,
                RuntimeType::Pointer,
                RuntimeType::Pointer,
                RuntimeType::I32,
                RuntimeType::I32,
                RuntimeType::I32,
                RuntimeType::I32,
                RuntimeType::I32,
                RuntimeType::I32,
                RuntimeType::I32,
                RuntimeType::Pointer,
            ],
            result: None,
        },
        RuntimeEntry {
            name: "aster_rt_io_path_bool"@,
            parameters: seq![
                RuntimeType::Pointer,
                RuntimeType::I32,
                RuntimeType::Pointer,
                RuntimeType::Pointer,
                RuntimeType::I32,
                RuntimeType::I32,
                RuntimeType::I32,
                RuntimeType::I32,
                RuntimeType::I32,
                RuntimeType::I32,
                RuntimeType::I32,
                RuntimeType::Pointer,
            ],
            result: None,
        },
    ]
}

fn export_path(functions: &mut Vec<RuntimeFunction>, addresses: &[usize])
    requires
        old(functions)@.len() + path_entries().len() <= addresses@.len(),
        placed(old(functions)@, addresses@),
    ensures
        final(functions)@.len() == old(functions)@.len() + path_entries().len(),
        placed(final(functions)@, addresses@),
        entries(final(functions)@) == entries(old(functions)@) + path_entries(),
{
    let p: Vec<RuntimeType> = vec![
        RuntimeType::Pointer,
        RuntimeType::Pointer,
        RuntimeType::Pointer,
        RuntimeType::I32,
        RuntimeType::I32,
        RuntimeType::I32,
        RuntimeType::I32,
        RuntimeType::I32,
        RuntimeType::I32,
        RuntimeType::I32,
        RuntimeType::Pointer,
    ];
    assert(p@ =~= path_entries()[0].parameters);
    export(functions, addresses, "aster_rt_io_list_directories", p, None);
    let p: Vec<RuntimeType> = vec![
        RuntimeType::Pointer,
        RuntimeType::Pointer,
        RuntimeType::Pointer,
        RuntimeType::I32,
        RuntimeType::I32,
        RuntimeType::I32,
        RuntimeType::I32,
        RuntimeType::I32,
        RuntimeType::I32,
        RuntimeType::I32,
        RuntimeType::Pointer,
    ];
    assert(p@ =~= path_entries()[1].parameters);
    export(functions, addresses, "aster_rt_io_list_directories_temporary", p, None);
    let p: Vec<RuntimeType> = vec![
        RuntimeType::Pointer,
        RuntimeType::Pointer,
        RuntimeType::Pointer,
        RuntimeType::Pointer,
        RuntimeType::I32,
        RuntimeType::I32,
        RuntimeType::I32,
        RuntimeType::I32,
        RuntimeType::I32,
        RuntimeType::I32,
        RuntimeType::I32,
        RuntimeType::Pointer,
    ];
    assert(p@ =~= path_entries()[2].parameters);
    export(functions, addresses, "aster_rt_io_append_all_text", p, None);
    let p: Vec<RuntimeType> = vec![
        RuntimeType::Pointer,
        RuntimeType::I32,
        RuntimeType::Pointer,
        RuntimeType::Pointer,
        RuntimeType::I32,
        RuntimeType::I32,
        RuntimeType::I32,
        RuntimeType::I32,
        RuntimeType::I32,
        RuntimeType::I32,
        RuntimeType::I32,
        RuntimeType::Pointer,
    ];
    assert(p@ =~= path_entries()[3].parameters);
    export(functions, addresses, "aster_rt_io_path_bool", p, None);
    assert(entries(functions@) =~= entries(old(functions)@) + path_entries());
}

/// The functions for mathematics, assertions, foreign code and time.
pub open spec fn service_entries() -> Seq<RuntimeEntry> {
    seq![
        RuntimeEntry {
            name: "aster_rt_random_mix"@,
            parameters: seq![RuntimeType::I64],
            result: Some(RuntimeType::I64),
        },
        RuntimeEntry {
            name: "aster_rt_assert_equal"@,
            parameters: seq![RuntimeType::Pointer, RuntimeType::Pointer, RuntimeType::Pointer],
            result: None,
        },
        RuntimeEntry {
            name: "aster_rt_math_unary_float"@,
            parameters: seq![RuntimeType::F32, RuntimeType::I32],
            result: Some(RuntimeType::F32),
        },
        RuntimeEntry {
            name: "aster_rt_math_unary_double"@,
            parameters: seq![RuntimeType::F64, RuntimeType::I32],
            result: Some(RuntimeType::F64),
        },
        RuntimeEntry {
            name: "aster_rt_math_pow_float"@,
            parameters: seq![RuntimeType::F32, RuntimeType::F32],
            result: Some(RuntimeType::F32),
        },
        RuntimeEntry {
            name: "aster_rt_math_pow_double"@,
            parameters: seq![RuntimeType::F64, RuntimeType::F64],
            result: Some(RuntimeType::F64),
        },
        RuntimeEntry {
            name: "aster_rt_math_binary_float"@,
            parameters: seq![RuntimeType::F32, RuntimeType::F32, RuntimeType::I32],
            result: Some(RuntimeType::F32),
        },
        RuntimeEntry {
            name: "aster_rt_math_binary_double"@,
            parameters: seq![RuntimeType::F64, RuntimeType::F64, RuntimeType::I32],
            result: Some(RuntimeType::F64),
        },
        RuntimeEntry {
            name: "aster_rt_math_predicate_float"@,
            parameters: seq![RuntimeType::F32, RuntimeType::I32],
            result: Some(RuntimeType::I8),
        },
        RuntimeEntry {
            name: "aster_rt_math_predicate_double"@,
            parameters: seq![RuntimeType::F64, RuntimeType::I32],
            result: Some(RuntimeType::I8),
        },
        RuntimeEntry {
            name: "aster_rt_foreign_error"@,
            parameters: seq![RuntimeType::Pointer, RuntimeType::I32, RuntimeType::I64],
            result: None,
        },
        RuntimeEntry {
            name: "aster_rt_time_monotonic_milliseconds"@,
            parameters: seq![],
            result: Some(RuntimeType::I64),
        },
        RuntimeEntry {
            name: "aster_rt_time_unix_milliseconds"@,
            parameters: seq![],
            result: Some(RuntimeType::I64),
        },
    ]
}

fn export_service(functions: &mut Vec<RuntimeFunction>, addresses: &[usize])
    requires
        old(functions)@.len() + service_entries().len() <= addresses@.len(),
        placed(old(functions)@, addresses@),
    ensures
        final(functions)@.len() == old(functions)@.len() + service_entries().len(),
        placed(final(functions)@, addresses@),
        entries(final(functions)@) == entries(old(functions)@) + service_entries(),
{
    let p: Vec<RuntimeType> = vec![RuntimeType::I64];
    assert(p@ =~= service_entries()[0].parameters);
    export(functions, addresses, "aster_rt_random_mix", p, Some(RuntimeType::I64));
    let p: Vec<RuntimeType> = vec![RuntimeType::Pointer, RuntimeType::Pointer, RuntimeType::Pointer];
    assert(p@ =~= service_entries()[1].parameters);
    export(functions, addresses, "aster_rt_assert_equal", p, None);
    let p: Vec<RuntimeType> = vec![RuntimeType::F32, RuntimeType::I32];
    assert(p@ =~= service_entries()[2].parameters);
    export(functions, addresses, "aster_rt_math_unary_float", p, Some(RuntimeType::F32));
    let p: Vec<RuntimeType> = vec![RuntimeType::F64, RuntimeType::I32];
    assert(p@ =~= service_entries()[3].parameters);
    export(functions, addresses, "aster_rt_math_unary_double", p, Some(RuntimeType::F64));
    let p: Vec<RuntimeType> = vec![RuntimeType::F32, RuntimeType::F32];
    assert(p@ =~= service_entries()[4].parameters);
    export(functions, addresses, "aster_rt_math_pow_float", p, Some(RuntimeType::F32));
    let p: Vec<RuntimeType> = vec![RuntimeType::F64, RuntimeType::F64];
    assert(p@ =~= service_entries()[5].parameters);
    export(functions, addresses, "aster_rt_math_pow_double", p, Some(RuntimeType::F64));
    let p: Vec<RuntimeType> = vec![RuntimeType::F32, RuntimeType::F32, RuntimeType::I32];
    assert(p@ =~= service_entries()[6].parameters);
    export(functions, addresses, "aster_rt_math_binary_float", p, Some(RuntimeType::F32));
    let p: Vec<RuntimeType> = vec![RuntimeType::F64, RuntimeType::F64, RuntimeType::I32];
    assert(p@ =~= service_entries()[7].parameters);
    export(functions, addresses, "aster_rt_math_binary_double", p, Some(RuntimeType::F64));
    let p: Vec<RuntimeType> = vec![RuntimeType::F32, RuntimeType::I32];
    assert(p@ =~= service_entries()[8].parameters);
    export(functions, addresses, "aster_rt_math_predicate_float", p, Some(RuntimeType::I8));
    let p: Vec<RuntimeType> = vec![RuntimeType::F64, RuntimeType::I32];
    assert(p@ =~= service_entries()[9].parameters);
    export(functions, addresses, "aster_rt_math_predicate_double", p, Some(RuntimeType::I8));
    let p: Vec<RuntimeType> = vec![RuntimeType::Pointer, RuntimeType::I32, RuntimeType::I64];
    assert(p@ =~= service_entries()[10].parameters);
    export(functions, addresses, "aster_rt_foreign_error", p, None);
    let p: Vec<RuntimeType> = vec![];
    assert(p@ =~= service_entries()[11].parameters);
    export(functions, addresses, "aster_rt_time_monotonic_milliseconds", p, Some(RuntimeType::I64));
    let p: Vec<RuntimeType> = vec![];
    assert(p@ =~= service_entries()[12].parameters);
    export(functions, addresses, "aster_rt_time_unix_milliseconds", p, Some(RuntimeType::I64));
    assert(entries(functions@) =~= entries(old(functions)@) + service_entries());
}

/// Every exported function, in a stable order.
pub open spec fn runtime_entries() -> Seq<RuntimeEntry> {
    memory_entries()
        + list_entries()
        + string_entries()
        + text_entries()
        + parse_entries()
        + io_entries()
        + fault_entries()
        + dictionary_entries()
        + edit_entries()
        + narrow_parse_entries()
        + path_entries()
        + service_entries()
}

/// Every exported function, in a stable order, at the addresses that the host
/// gives in the same order.
pub fn runtime_functions(addresses: &[usize]) -> (functions: Vec<RuntimeFunction>)
    requires
        addresses@.len() == RUNTIME_FUNCTION_COUNT,
        forall|i: int| 0 <= i < addresses@.len() ==> addresses@[i] != 0,
    ensures
        entries(functions@) == runtime_entries(),
        functions@.len() == RUNTIME_FUNCTION_COUNT,
        placed(functions@, addresses@),
        forall|i: int| 0 <= i < functions@.len() ==> (#[trigger] functions@[i]).address != 0,
{
    let mut functions: Vec<RuntimeFunction> = Vec::new();
    export_memory(&mut functions, addresses);
    export_list(&mut functions, addresses);
    export_string(&mut functions, addresses);
    export_text(&mut functions, addresses);
    export_parse(&mut functions, addresses);
    export_io(&mut functions, addresses);
    export_fault(&mut functions, addresses);
    export_dictionary(&mut functions, addresses);
    export_edit(&mut functions, addresses);
    export_narrow_parse(&mut functions, addresses);
    export_path(&mut functions, addresses);
    export_service(&mut functions, addresses);
    assert(entries(functions@) =~= runtime_entries());
    assert(entries(functions@).len() == functions@.len());
    functions
}

/// The number of a character, and zero where there is none.
spec fn char_code(name: Seq<char>, i: int) -> int {
    if i < name.len() {
        name[i] as int
    } else {
        0
    }
}

/// A number that tells the exported names apart.
spec fn code(name: Seq<char>) -> int {
    39 * name.len()
        + 38 * char_code(name, 22)
        + 30 * char_code(name, 16)
        + 29 * char_code(name, 24)
        + 38 * char_code(name, 29)
        + 27 * char_code(name, 14)
}

/// The place of the exported name with this number.
spec fn place(code: int) -> int {
    if code == 468 {
        0
    } else if code == 6297 {
        1
    } else if code == 14249 {
        2
    } else if code == 7173 {
        3
    } else if code == 14924 {
        4
    } else if code == 19011 {
        5
    } else if code == 18517 {
        6
    } else if code == 6663 {
        7
    } else if code == 6414 {
        8
    } else if code == 7203 {
        9
    } else if code == 14624 {
        10
    } else if code == 6996 {
        11
    } else if code == 7425 {
        12
    } else if code == 19205 {
        13
    } else if code == 6282 {
        14
    } else if code == 6924 {
        15
    } else if code == 11653 {
        16
    } else if code == 6513 {
        17
    } else if code == 6609 {
        18
    } else if code == 17224 {
        19
    } else if code == 6879 {
        20
    } else if code == 13599 {
        21
    } else if code == 13373 {
        22
    } else if code == 10867 {
        23
    } else if code == 13939 {
        24
    } else if code == 13792 {
        25
    } else if code == 11085 {
        26
    } else if code == 18520 {
        27
    } else if code == 18910 {
        28
    } else if code == 18331 {
        29
    } else if code == 18721 {
        30
    } else if code == 14021 {
        31
    } else if code == 18667 {
        32
    } else if code == 14149 {
        33
    } else if code == 18681 {
        34
    } else if code == 13954 {
        35
    } else if code == 18182 {
        36
    } else if code == 13772 {
        37
    } else if code == 18304 {
        38
    } else if code == 14166 {
        39
    } else if code == 18812 {
        40
    } else if code == 14074 {
        41
    } else if code == 18720 {
        42
    } else if code == 6741 {
        43
    } else if code == 18815 {
        44
    } else if code == 18796 {
        45
    } else if code == 14653 {
        46
    } else if code == 19100 {
        47
    } else if code == 18606 {
        48
    } else if code == 18911 {
        49
    } else if code == 18417 {
        50
    } else if code == 18494 {
        51
    } else if code == 6528 {
        52
    } else if code == 6723 {
        53
    } else if code == 6288 {
        54
    } else if code == 18579 {
        55
    } else if code == 13646 {
        56
    } else if code == 18292 {
        57
    } else if code == 14767 {
        58
    } else if code == 6813 {
        59
    } else if code == 17428 {
        60
    } else if code == 14535 {
        61
    } else if code == 18702 {
        62
    } else if code == 11326 {
        63
    } else if code == 19412 {
        64
    } else if code == 14465 {
        65
    } else if code == 10604 {
        66
    } else if code == 11212 {
        67
    } else if code == 18214 {
        68
    } else if code == 14485 {
        69
    } else if code == 14545 {
        70
    } else if code == 14413 {
        71
    } else if code == 14261 {
        72
    } else if code == 7041 {
        73
    } else if code == 19115 {
        74
    } else if code == 14989 {
        75
    } else if code == 19521 {
        76
    } else if code == 11377 {
        77
    } else if code == 18740 {
        78
    } else if code == 14120 {
        79
    } else if code == 18652 {
        80
    } else if code == 13759 {
        81
    } else if code == 18557 {
        82
    } else if code == 7059 {
        83
    } else if code == 17674 {
        84
    } else if code == 11529 {
        85
    } else if code == 18892 {
        86
    } else if code == 14113 {
        87
    } else if code == 18645 {
        88
    } else if code == 10936 {
        89
    } else if code == 19022 {
        90
    } else if code == 7050 {
        91
    } else if code == 19341 {
        92
    } else if code == 19024 {
        93
    } else if code == 19139 {
        94
    } else if code == 18530 {
        95
    } else if code == 19063 {
        96
    } else if code == 18988 {
        97
    } else if code == 14761 {
        98
    } else if code == 19559 {
        99
    } else if code == 13916 {
        100
    } else if code == 6801 {
        101
    } else if code == 6954 {
        102
    } else if code == 6981 {
        103
    } else if code == 14626 {
        104
    } else if code == 14661 {
        105
    } else if code == 11899 {
        106
    } else if code == 11634 {
        107
    } else if code == 13877 {
        108
    } else if code == 14059 {
        109
    } else if code == 13981 {
        110
    } else if code == 17800 {
        111
    } else if code == 6489 {
        112
    } else if code == 18940 {
        113
    } else if code == 18757 {
        114
    } else {
        115
    }
}

/// Each name of the group leads to its own place.
proof fn lemma_memory_places()
    ensures
        forall|i: int|
            0 <= i < memory_entries().len() ==> place(code((#[trigger] memory_entries()[i]).name)) == 0 + i,
{
    reveal_strlit("aster_rt_log");
    reveal_strlit("aster_rt_array_new");
    reveal_strlit("aster_rt_array_new_temporary");
    reveal_strlit("aster_rt_object_new");
    reveal_strlit("aster_rt_object_new_temporary");
    reveal_strlit("aster_rt_temporary_scope_enter");
    reveal_strlit("aster_rt_temporary_scope_leave");
    reveal_strlit("aster_rt_array_element");
    reveal_strlit("aster_rt_array_length");
    assert(place(code("aster_rt_log"@)) == 0);
    assert(place(code("aster_rt_array_new"@)) == 1);
    assert(place(code("aster_rt_array_new_temporary"@)) == 2);
    assert(place(code("aster_rt_object_new"@)) == 3);
    assert(place(code("aster_rt_object_new_temporary"@)) == 4);
    assert(place(code("aster_rt_temporary_scope_enter"@)) == 5);
    assert(place(code("aster_rt_temporary_scope_leave"@)) == 6);
    assert(place(code("aster_rt_array_element"@)) == 7);
    assert(place(code("aster_rt_array_length"@)) == 8);
}

/// Each name of the group leads to its own place.
proof fn lemma_list_places()
    ensures
        forall|i: int|
            0 <= i < list_entries().len() ==> place(code((#[trigger] list_entries()[i]).name)) == 9 + i,
{
    reveal_strlit("aster_rt_list_new");
    reveal_strlit("aster_rt_list_new_temporary");
    reveal_strlit("aster_rt_list_length");
    reveal_strlit("aster_rt_list_version");
    reveal_strlit("aster_rt_list_version_mismatch");
    reveal_strlit("aster_rt_list_add");
    reveal_strlit("aster_rt_list_get");
    reveal_strlit("aster_rt_list_remove_at");
    assert(place(code("aster_rt_list_new"@)) == 9);
    assert(place(code("aster_rt_list_new_temporary"@)) == 10);
    assert(place(code("aster_rt_list_length"@)) == 11);
    assert(place(code("aster_rt_list_version"@)) == 12);
    assert(place(code("aster_rt_list_version_mismatch"@)) == 13);
    assert(place(code("aster_rt_list_add"@)) == 14);
    assert(place(code("aster_rt_list_get"@)) == 15);
    assert(place(code("aster_rt_list_remove_at"@)) == 16);
}

/// Each name of the group leads to its own place.
proof fn lemma_string_places()
    ensures
        forall|i: int|
            0 <= i < string_entries().len() ==> place(code((#[trigger] string_entries()[i]).name)) == 17 + i,
{
    reveal_strlit("aster_rt_string_eq");
    reveal_strlit("aster_rt_string_concat");
    reveal_strlit("aster_rt_string_concat_temporary");
    reveal_strlit("aster_rt_string_length");
    reveal_strlit("aster_rt_string_byte_length");
    reveal_strlit("aster_rt_string_decode_next");
    reveal_strlit("aster_rt_string_contains");
    reveal_strlit("aster_rt_string_starts_with");
    reveal_strlit("aster_rt_string_ends_with");
    reveal_strlit("aster_rt_string_index_of");
    reveal_strlit("aster_rt_string_substring_from");
    reveal_strlit("aster_rt_string_substring_from_temporary");
    reveal_strlit("aster_rt_string_substring_range");
    reveal_strlit("aster_rt_string_substring_range_temporary");
    assert(place(code("aster_rt_string_eq"@)) == 17);
    assert(place(code("aster_rt_string_concat"@)) == 18);
    assert(place(code("aster_rt_string_concat_temporary"@)) == 19);
    assert(place(code("aster_rt_string_length"@)) == 20);
    assert(place(code("aster_rt_string_byte_length"@)) == 21);
    assert(place(code("aster_rt_string_decode_next"@)) == 22);
    assert(place(code("aster_rt_string_contains"@)) == 23);
    assert(place(code("aster_rt_string_starts_with"@)) == 24);
    assert(place(code("aster_rt_string_ends_with"@)) == 25);
    assert(place(code("aster_rt_string_index_of"@)) == 26);
    assert(place(code("aster_rt_string_substring_from"@)) == 27);
    assert(place(code("aster_rt_string_substring_from_temporary"@)) == 28);
    assert(place(code("aster_rt_string_substring_range"@)) == 29);
    assert(place(code("aster_rt_string_substring_range_temporary"@)) == 30);
}

/// Each name of the group leads to its own place.
proof fn lemma_text_places()
    ensures
        forall|i: int|
            0 <= i < text_entries().len() ==> place(code((#[trigger] text_entries()[i]).name)) == 31 + i,
{
    reveal_strlit("aster_rt_string_from_long");
    reveal_strlit("aster_rt_string_from_long_temporary");
    reveal_strlit("aster_rt_string_from_ulong");
    reveal_strlit("aster_rt_string_from_ulong_temporary");
    reveal_strlit("aster_rt_string_from_double");
    reveal_strlit("aster_rt_string_from_double_temporary");
    reveal_strlit("aster_rt_string_from_float");
    reveal_strlit("aster_rt_string_from_float_temporary");
    reveal_strlit("aster_rt_string_from_bool");
    reveal_strlit("aster_rt_string_from_bool_temporary");
    reveal_strlit("aster_rt_string_from_char");
    reveal_strlit("aster_rt_string_from_char_temporary");
    reveal_strlit("aster_rt_string_join");
    reveal_strlit("aster_rt_string_join_temporary");
    assert(place(code("aster_rt_string_from_long"@)) == 31);
    assert(place(code("aster_rt_string_from_long_temporary"@)) == 32);
    assert(place(code("aster_rt_string_from_ulong"@)) == 33);
    assert(place(code("aster_rt_string_from_ulong_temporary"@)) == 34);
    assert(place(code("aster_rt_string_from_double"@)) == 35);
    assert(place(code("aster_rt_string_from_double_temporary"@)) == 36);
    assert(place(code("aster_rt_string_from_float"@)) == 37);
    assert(place(code("aster_rt_string_from_float_temporary"@)) == 38);
    assert(place(code("aster_rt_string_from_bool"@)) == 39);
    assert(place(code("aster_rt_string_from_bool_temporary"@)) == 40);
    assert(place(code("aster_rt_string_from_char"@)) == 41);
    assert(place(code("aster_rt_string_from_char_temporary"@)) == 42);
    assert(place(code("aster_rt_string_join"@)) == 43);
    assert(place(code("aster_rt_string_join_temporary"@)) == 44);
}

/// Each name of the group leads to its own place.
proof fn lemma_parse_places()
    ensures
        forall|i: int|
            0 <= i < parse_entries().len() ==> place(code((#[trigger] parse_entries()[i]).name)) == 45 + i,
{
    reveal_strlit("aster_rt_string_try_parse_bool");
    reveal_strlit("aster_rt_string_try_parse_int");
    reveal_strlit("aster_rt_string_try_parse_uint");
    reveal_strlit("aster_rt_string_try_parse_long");
    reveal_strlit("aster_rt_string_try_parse_ulong");
    reveal_strlit("aster_rt_string_try_parse_float");
    reveal_strlit("aster_rt_string_try_parse_double");
    assert(place(code("aster_rt_string_try_parse_bool"@)) == 45);
    assert(place(code("aster_rt_string_try_parse_int"@)) == 46);
    assert(place(code("aster_rt_string_try_parse_uint"@)) == 47);
    assert(place(code("aster_rt_string_try_parse_long"@)) == 48);
    assert(place(code("aster_rt_string_try_parse_ulong"@)) == 49);
    assert(place(code("aster_rt_string_try_parse_float"@)) == 50);
    assert(place(code("aster_rt_string_try_parse_double"@)) == 51);
}

/// Each name of the group leads to its own place.
proof fn lemma_io_places()
    ensures
        forall|i: int|
            0 <= i < io_entries().len() ==> place(code((#[trigger] io_entries()[i]).name)) == 52 + i,
{
    reveal_strlit("aster_rt_io_write");
    reveal_strlit("aster_rt_io_write_line");
    reveal_strlit("aster_rt_io_read_line");
    reveal_strlit("aster_rt_io_read_line_temporary");
    reveal_strlit("aster_rt_io_read_all_text");
    reveal_strlit("aster_rt_io_read_all_text_temporary");
    reveal_strlit("aster_rt_io_write_all_text");
    reveal_strlit("aster_rt_io_list_files");
    reveal_strlit("aster_rt_io_list_files_temporary");
    assert(place(code("aster_rt_io_write"@)) == 52);
    assert(place(code("aster_rt_io_write_line"@)) == 53);
    assert(place(code("aster_rt_io_read_line"@)) == 54);
    assert(place(code("aster_rt_io_read_line_temporary"@)) == 55);
    assert(place(code("aster_rt_io_read_all_text"@)) == 56);
    assert(place(code("aster_rt_io_read_all_text_temporary"@)) == 57);
    assert(place(code("aster_rt_io_write_all_text"@)) == 58);
    assert(place(code("aster_rt_io_list_files"@)) == 59);
    assert(place(code("aster_rt_io_list_files_temporary"@)) == 60);
}

/// Each name of the group leads to its own place.
proof fn lemma_fault_places()
    ensures
        forall|i: int|
            0 <= i < fault_entries().len() ==> place(code((#[trigger] fault_entries()[i]).name)) == 61 + i,
{
    reveal_strlit("aster_rt_math_domain_error");
    reveal_strlit("aster_rt_integer_arithmetic_error");
    assert(place(code("aster_rt_math_domain_error"@)) == 61);
    assert(place(code("aster_rt_integer_arithmetic_error"@)) == 62);
}

/// Each name of the group leads to its own place.
proof fn lemma_dictionary_places()
    ensures
        forall|i: int|
            0 <= i < dictionary_entries().len() ==> place(code((#[trigger] dictionary_entries()[i]).name)) == 63 + i,
{
    reveal_strlit("aster_rt_dictionary_new");
    reveal_strlit("aster_rt_dictionary_new_temporary");
    reveal_strlit("aster_rt_dictionary_length");
    reveal_strlit("aster_rt_dictionary_add");
    reveal_strlit("aster_rt_dictionary_set");
    reveal_strlit("aster_rt_dictionary_contains_key");
    reveal_strlit("aster_rt_dictionary_remove");
    reveal_strlit("aster_rt_dictionary_try_get");
    reveal_strlit("aster_rt_dictionary_entries");
    assert(place(code("aster_rt_dictionary_new"@)) == 63);
    assert(place(code("aster_rt_dictionary_new_temporary"@)) == 64);
    assert(place(code("aster_rt_dictionary_length"@)) == 65);
    assert(place(code("aster_rt_dictionary_add"@)) == 66);
    assert(place(code("aster_rt_dictionary_set"@)) == 67);
    assert(place(code("aster_rt_dictionary_contains_key"@)) == 68);
    assert(place(code("aster_rt_dictionary_remove"@)) == 69);
    assert(place(code("aster_rt_dictionary_try_get"@)) == 70);
    assert(place(code("aster_rt_dictionary_entries"@)) == 71);
}

/// Each name of the group leads to its own place.
proof fn lemma_edit_places()
    ensures
        forall|i: int|
            0 <= i < edit_entries().len() ==> place(code((#[trigger] edit_entries()[i]).name)) == 72 + i,
{
    reveal_strlit("aster_rt_string_last_index_of");
    reveal_strlit("aster_rt_string_trim");
    reveal_strlit("aster_rt_string_trim_temporary");
    reveal_strlit("aster_rt_string_trim_start");
    reveal_strlit("aster_rt_string_trim_start_temporary");
    reveal_strlit("aster_rt_string_trim_end");
    reveal_strlit("aster_rt_string_trim_end_temporary");
    reveal_strlit("aster_rt_string_join_array");
    reveal_strlit("aster_rt_string_join_array_temporary");
    reveal_strlit("aster_rt_string_concat_array");
    reveal_strlit("aster_rt_string_concat_array_temporary");
    reveal_strlit("aster_rt_string_repeat");
    reveal_strlit("aster_rt_string_repeat_temporary");
    reveal_strlit("aster_rt_string_to_chars");
    reveal_strlit("aster_rt_string_to_chars_temporary");
    reveal_strlit("aster_rt_string_from_chars");
    reveal_strlit("aster_rt_string_from_chars_temporary");
    reveal_strlit("aster_rt_string_replace");
    reveal_strlit("aster_rt_string_replace_temporary");
    reveal_strlit("aster_rt_string_split");
    reveal_strlit("aster_rt_string_split_temporary");
    assert(place(code("aster_rt_string_last_index_of"@)) == 72);
    assert(place(code("aster_rt_string_trim"@)) == 73);
    assert(place(code("aster_rt_string_trim_temporary"@)) == 74);
    assert(place(code("aster_rt_string_trim_start"@)) == 75);
    assert(place(code("aster_rt_string_trim_start_temporary"@)) == 76);
    assert(place(code("aster_rt_string_trim_end"@)) == 77);
    assert(place(code("aster_rt_string_trim_end_temporary"@)) == 78);
    assert(place(code("aster_rt_string_join_array"@)) == 79);
    assert(place(code("aster_rt_string_join_array_temporary"@)) == 80);
    assert(place(code("aster_rt_string_concat_array"@)) == 81);
    assert(place(code("aster_rt_string_concat_array_temporary"@)) == 82);
    assert(place(code("aster_rt_string_repeat"@)) == 83);
    assert(place(code("aster_rt_string_repeat_temporary"@)) == 84);
    assert(place(code("aster_rt_string_to_chars"@)) == 85);
    assert(place(code("aster_rt_string_to_chars_temporary"@)) == 86);
    assert(place(code("aster_rt_string_from_chars"@)) == 87);
    assert(place(code("aster_rt_string_from_chars_temporary"@)) == 88);
    assert(place(code("aster_rt_string_replace"@)) == 89);
    assert(place(code("aster_rt_string_replace_temporary"@)) == 90);
    assert(place(code("aster_rt_string_split"@)) == 91);
    assert(place(code("aster_rt_string_split_temporary"@)) == 92);
}

/// Each name of the group leads to its own place.
proof fn lemma_narrow_parse_places()
    ensures
        forall|i: int|
            0 <= i < narrow_parse_entries().len() ==> place(code((#[trigger] narrow_parse_entries()[i]).name)) == 93 + i,
{
    reveal_strlit("aster_rt_string_try_parse_char");
    reveal_strlit("aster_rt_string_try_parse_sbyte");
    reveal_strlit("aster_rt_string_try_parse_byte");
    reveal_strlit("aster_rt_string_try_parse_short");
    reveal_strlit("aster_rt_string_try_parse_ushort");
    assert(place(code("aster_rt_string_try_parse_char"@)) == 93);
    assert(place(code("aster_rt_string_try_parse_sbyte"@)) == 94);
    assert(place(code("aster_rt_string_try_parse_byte"@)) == 95);
    assert(place(code("aster_rt_string_try_parse_short"@)) == 96);
    assert(place(code("aster_rt_string_try_parse_ushort"@)) == 97);
}

/// Each name of the group leads to its own place.
proof fn lemma_path_places()
    ensures
        forall|i: int|
            0 <= i < path_entries().len() ==> place(code((#[trigger] path_entries()[i]).name)) == 98 + i,
{
    reveal_strlit("aster_rt_io_list_directories");
    reveal_strlit("aster_rt_io_list_directories_temporary");
    reveal_strlit("aster_rt_io_append_all_text");
    reveal_strlit("aster_rt_io_path_bool");
    assert(place(code("aster_rt_io_list_directories"@)) == 98);
    assert(place(code("aster_rt_io_list_directories_temporary"@)) == 99);
    assert(place(code("aster_rt_io_append_all_text"@)) == 100);
    assert(place(code("aster_rt_io_path_bool"@)) == 101);
}

/// Each name of the group leads to its own place.
proof fn lemma_service_places()
    ensures
        forall|i: int|
            0 <= i < service_entries().len() ==> place(code((#[trigger] service_entries()[i]).name)) == 102 + i,
{
    reveal_strlit("aster_rt_random_mix");
    reveal_strlit("aster_rt_assert_equal");
    reveal_strlit("aster_rt_math_unary_float");
    reveal_strlit("aster_rt_math_unary_double");
    reveal_strlit("aster_rt_math_pow_float");
    reveal_strlit("aster_rt_math_pow_double");
    reveal_strlit("aster_rt_math_binary_float");
    reveal_strlit("aster_rt_math_binary_double");
    reveal_strlit("aster_rt_math_predicate_float");
    reveal_strlit("aster_rt_math_predicate_double");
    reveal_strlit("aster_rt_foreign_error");
    reveal_strlit("aster_rt_time_monotonic_milliseconds");
    reveal_strlit("aster_rt_time_unix_milliseconds");
    assert(place(code("aster_rt_random_mix"@)) == 102);
    assert(place(code("aster_rt_assert_equal"@)) == 103);
    assert(place(code("aster_rt_math_unary_float"@)) == 104);
    assert(place(code("aster_rt_math_unary_double"@)) == 105);
    assert(place(code("aster_rt_math_pow_float"@)) == 106);
    assert(place(code("aster_rt_math_pow_double"@)) == 107);
    assert(place(code("aster_rt_math_binary_float"@)) == 108);
    assert(place(code("aster_rt_math_binary_double"@)) == 109);
    assert(place(code("aster_rt_math_predicate_float"@)) == 110);
    assert(place(code("aster_rt_math_predicate_double"@)) == 111);
    assert(place(code("aster_rt_foreign_error"@)) == 112);
    assert(place(code("aster_rt_time_monotonic_milliseconds"@)) == 113);
    assert(place(code("aster_rt_time_unix_milliseconds"@)) == 114);
}

/// Every exported name leads to its own place.
proof fn lemma_place(i: int)
    requires
        0 <= i < runtime_entries().len(),
    ensures
        place(code(runtime_entries()[i].name)) == i,
{
    if i < 9 {
        lemma_memory_places();
        assert(runtime_entries()[i] == memory_entries()[i - 0]);
    } else if i < 17 {
        lemma_list_places();
        assert(runtime_entries()[i] == list_entries()[i - 9]);
    } else if i < 31 {
        lemma_string_places();
        assert(runtime_entries()[i] == string_entries()[i - 17]);
    } else if i < 45 {
        lemma_text_places();
        assert(runtime_entries()[i] == text_entries()[i - 31]);
    } else if i < 52 {
        lemma_parse_places();
        assert(runtime_entries()[i] == parse_entries()[i - 45]);
    } else if i < 61 {
        lemma_io_places();
        assert(runtime_entries()[i] == io_entries()[i - 52]);
    } else if i < 63 {
        lemma_fault_places();
        assert(runtime_entries()[i] == fault_entries()[i - 61]);
    } else if i < 72 {
        lemma_dictionary_places();
        assert(runtime_entries()[i] == dictionary_entries()[i - 63]);
    } else if i < 93 {
        lemma_edit_places();
        assert(runtime_entries()[i] == edit_entries()[i - 72]);
    } else if i < 98 {
        lemma_narrow_parse_places();
        assert(runtime_entries()[i] == narrow_parse_entries()[i - 93]);
    } else if i < 102 {
        lemma_path_places();
        assert(runtime_entries()[i] == path_entries()[i - 98]);
    } else {
        lemma_service_places();
        assert(runtime_entries()[i] == service_entries()[i - 102]);
    }
}

/// No two exported functions have the same name.
pub proof fn law_names_are_unique(i: int, j: int)
    requires
        0 <= i < j < runtime_entries().len(),
    ensures
        runtime_entries()[i].name != runtime_entries()[j].name,
{
    lemma_place(i);
    lemma_place(j);
}

} // verus!

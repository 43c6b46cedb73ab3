//! Where things lie: at the next place that their alignment allows, behind each other, and
//! with no more room between them than that takes.

use vstd::arithmetic::div_mod::{lemma_fundamental_div_mod, lemma_mod_multiples_basic};
use vstd::prelude::*;

use crate::arena::{align_up, lemma_round_up, valid_align};
use crate::array::size_from_abi;
use crate::dictionary::{dictionary_entry_layout, DictionaryEntryLayout};
use crate::numbers::power_of_two;

verus! {

/// `place` is the first place from `from` on that the alignment allows.
pub open spec fn is_next_place(from: int, align: int, place: int) -> bool {
    from <= place < from + align && place % align == 0
}

/// Rounding up gives the next multiple, and fails only where the search for it leaves the
/// range of sizes.
pub proof fn law_rounding_up(value: usize, align: usize, result: Option<usize>)
    requires
        align > 0,
        call_ensures(align_up, (value, align), result),
    ensures
        result matches Some(rounded) ==> is_next_place(value as int, align as int, rounded as int),
        result is None <==> value + align - 1 > usize::MAX,
{
    let s = value + align - 1;
    let a = align as int;
    lemma_fundamental_div_mod(s, a);
    lemma_mod_multiples_basic(s / a, a);
    assert(a * (s / a) == (s / a) * a) by (nonlinear_arith);
    assert(0 <= s % a < a) by (nonlinear_arith)
        requires
            a > 0,
    ;
}

/// An entry holds its header, its key and its value, each at the next place behind the one
/// before, and entries can stand behind each other.
pub proof fn law_entry_layout(
    key_size: u32,
    key_align: u32,
    value_size: u32,
    value_align: u32,
    result: Option<DictionaryEntryLayout>,
)
    requires
        call_ensures(
            dictionary_entry_layout,
            (key_size, key_align, value_size, value_align),
            result,
        ),
    ensures
        result matches Some(layout) ==> {
            &&& valid_align(key_align as int) && valid_align(value_align as int)
            &&& is_next_place(16, key_align as int, layout.key_offset as int)
            &&& is_next_place(
                layout.key_offset + key_size,
                value_align as int,
                layout.value_offset as int,
            )
            &&& is_next_place(
                layout.value_offset + value_size,
                layout.align as int,
                layout.stride as int,
            )
            &&& layout.align >= 8 && layout.align >= key_align && layout.align >= value_align
            &&& layout.align == 8 || layout.align == key_align || layout.align == value_align
        },
        !valid_align(key_align as int) || !valid_align(value_align as int) ==> result is None,
        valid_align(key_align as int) && valid_align(value_align as int) && key_size + value_size
            + 64 <= usize::MAX ==> result is Some,
{
    if let Some(layout) = result {
        lemma_round_up(16, key_align as int);
        lemma_round_up(layout.key_offset + key_size, value_align as int);
        lemma_round_up(layout.value_offset + value_size, layout.align as int);
    } else if valid_align(key_align as int) && valid_align(value_align as int) {
        let key_offset = crate::arena::round_up(16, key_align as int);
        lemma_round_up(16, key_align as int);
        lemma_round_up(key_offset + key_size, value_align as int);
    }
}

/// A size that is not negative is taken as it is, and a negative one never.
pub proof fn law_sizes_from_outside(value: i32, fallback: u32, size: u32)
    requires
        call_ensures(size_from_abi, (value, fallback), size),
    ensures
        value >= 0 ==> size == value,
        value < 0 ==> size == fallback,
{
}

/// Two to the power `k` is a power of two, and what lies between it and the next is none.
pub proof fn law_powers_of_two(k: u32, x: u32, result: bool)
    requires
        k < 31,
        (1u32 << k) <= x < (1u32 << ((k + 1) as u32)),
        call_ensures(power_of_two, (x,), result),
    ensures
        result <==> x == 1u32 << k,
{
    let next = (k + 1) as u32;
    assert(k < 31 && next == k + 1 && (1u32 << k) <= x && x < (1u32 << next) ==> (x != 0 && x & (
    (x - 1) as u32) == 0 <==> x == 1u32 << k)) by (bit_vector);
}

} // verus!

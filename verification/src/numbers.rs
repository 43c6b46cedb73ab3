//! Powers of two, and counters that start over.

use vstd::arithmetic::div_mod::{
    lemma_fundamental_div_mod, lemma_fundamental_div_mod_converse, lemma_small_mod,
};
use vstd::prelude::*;

use crate::arena::valid_align;

verus! {

/// Exactly one bit of `x` is set.
pub open spec fn is_power_of_two(x: u32) -> bool {
    x != 0 && x & ((x - 1) as u32) == 0
}

/// Whether exactly one bit of `x` is set.
pub fn power_of_two(x: u32) -> (result: bool)
    ensures
        result == is_power_of_two(x),
{
    x != 0 && (x & (x - 1)) == 0
}

/// The powers of two up to sixteen are the alignments that arenas support.
pub proof fn lemma_small_power_of_two(x: u32)
    requires
        x <= 16,
    ensures
        is_power_of_two(x) <==> valid_align(x as int),
{
    assert(x <= 16 ==> (x != 0 && x & ((x - 1) as u32) == 0 <==> x == 1 || x == 2 || x == 4 || x
        == 8 || x == 16)) by (bit_vector);
}

/// Whether a counter shows an amount, counted up to the largest number there is and
/// from zero again.
#[verifier::opaque]
pub open spec fn shows(counter: u64, amount: int) -> bool {
    counter == amount % 0x1_0000_0000_0000_0000
}

/// A counter counts on.
pub proof fn lemma_shows_more(counter: u64, amount: int, more: u64)
    requires
        shows(counter, amount),
    ensures
        shows(counter.wrapping_add(more), amount + more),
{
    reveal(shows);
    let span = 0x1_0000_0000_0000_0000int;
    lemma_fundamental_div_mod(amount, span);
    let turns = amount / span;
    if counter + more >= span {
        assert(span * (turns + 1) == span * turns + span) by (nonlinear_arith);
        lemma_fundamental_div_mod_converse(
            amount + more,
            span,
            turns + 1,
            counter + more - span,
        );
    } else {
        lemma_fundamental_div_mod_converse(amount + more, span, turns, counter + more);
    }
}

/// A counter shows any amount that did not outgrow it as it is, and two counters that
/// show the same amount are equal.
pub proof fn lemma_shows(counter: u64, amount: int)
    requires
        0 <= amount,
    ensures
        amount <= u64::MAX ==> (shows(counter, amount) <==> counter == amount),
        forall|other: u64|
            shows(counter, amount) && #[trigger] shows(other, amount) ==> other == counter,
{
    reveal(shows);
    if amount <= u64::MAX {
        lemma_small_mod(amount as nat, 0x1_0000_0000_0000_0000);
    }
}

} // verus!

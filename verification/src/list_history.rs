//! What a list amounts to over any number of calls.

use vstd::arithmetic::power2::{lemma2_to64, lemma_pow2_unfold, pow2};
use vstd::prelude::*;

use crate::context::ExecutionContext;
use crate::list::{grown_capacity, AsterList};

verus! {

/// What a program does with a list. Reading an element, the length or the version
/// observes it.
#[derive(Clone, Copy, Debug, PartialEq, Eq, Structural)]
pub enum ListAct {
    Add,
    RemoveAt,
    Observe,
}

/// One call on a list, successful or not.
pub struct ListTurn<'a> {
    pub act: ListAct,
    pub before: ExecutionContext,
    pub after: ExecutionContext,
    /// The header before the call.
    pub header: AsterList,
    /// The header after the call.
    pub next: AsterList,
    pub element_size: u32,
    pub element_align: u32,
    pub element_type_key: u64,
    pub source: Option<&'a [u8]>,
    pub index: i32,
}

impl<'a> ListTurn<'a> {
    /// The call did what its contract says.
    pub open spec fn made(self) -> bool {
        match self.act {
            ListAct::Add => self.after.add_outcome(
                self.before,
                self.header,
                self.next,
                self.element_size,
                self.element_align,
                self.element_type_key,
                self.source,
            ),
            ListAct::RemoveAt => self.after.remove_outcome(
                self.before,
                self.header,
                self.next,
                self.element_size,
                self.element_align,
                self.element_type_key,
                self.index,
            ),
            ListAct::Observe => self.next == self.header,
        }
    }

    /// The call added or removed an element.
    pub open spec fn succeeded(self) -> bool {
        self.act != ListAct::Observe && self.next != self.header
    }
}

/// The calls are made on one list, from its creation on.
pub open spec fn is_list_history(turns: Seq<ListTurn>) -> bool {
    &&& forall|i: int| 0 <= i < turns.len() ==> (#[trigger] turns[i]).made()
    &&& forall|i: int|
        0 < i < turns.len() ==> (#[trigger] turns[i]).header == turns[i - 1].next
    &&& turns.len() > 0 ==> {
        &&& turns[0].header.length == 0
        &&& turns[0].header.capacity == 0
        &&& turns[0].header.version == 0
    }
}

/// How many of the first `n` calls were acts of this kind that succeeded.
pub open spec fn successes(turns: Seq<ListTurn>, act: ListAct, n: int) -> int
    decreases n,
{
    if n <= 0 {
        0
    } else if turns[n - 1].act == act && turns[n - 1].succeeded() {
        successes(turns, act, n - 1) + 1
    } else {
        successes(turns, act, n - 1)
    }
}

/// After any calls on a list, its version is the number of successful additions and
/// removals, counted up to the largest number there is and from zero again. Its
/// length is the additions less the removals. It never exceeds the capacity. A call
/// that fails or only observes changes nothing of the header.
pub proof fn law_list_counts_its_changes(turns: Seq<ListTurn>, i: int)
    requires
        is_list_history(turns),
        0 <= i < turns.len(),
    ensures
        ({
            let added = successes(turns, ListAct::Add, i + 1);
            let removed = successes(turns, ListAct::RemoveAt, i + 1);
            &&& added >= 0
            &&& removed >= 0
            &&& turns[i].next.version as int == (added + removed) % 0x1_0000_0000_0000_0000
            &&& turns[i].next.length == added - removed
            &&& 0 <= turns[i].next.length <= turns[i].next.capacity
            &&& turns[i].header.capacity <= turns[i].next.capacity
            &&& !turns[i].succeeded() ==> turns[i].next == turns[i].header
        }),
    decreases i,
{
    let turn = turns[i];
    if i > 0 {
        law_list_counts_its_changes(turns, i - 1);
    } else {
        assert(successes(turns, ListAct::Add, 0) == 0);
        assert(successes(turns, ListAct::RemoveAt, 0) == 0);
    }
    assert(turn.made());
}

/// Whether a list can have this capacity: none, or four elements doubled any number of
/// times.
pub open spec fn is_list_capacity(capacity: i32) -> bool {
    capacity == 0 || exists|doublings: nat| capacity == 4 * #[trigger] pow2(doublings)
}

/// From any call on a list to a later one its capacity never shrinks, and it is none
/// or four elements doubled any number of times. Where the header is stored, the size,
/// the alignment and the type of the elements, and the region of the list never change.
pub proof fn law_list_keeps_its_type(turns: Seq<ListTurn>, i: int, j: int)
    requires
        is_list_history(turns),
        0 <= i <= j < turns.len(),
    ensures
        ({
            let header = turns[i].header;
            let next = turns[j].next;
            &&& is_list_capacity(next.capacity)
            &&& header.capacity <= next.capacity
            &&& next.address == header.address
            &&& next.element_size == header.element_size
            &&& next.element_align == header.element_align
            &&& next.element_type_key == header.element_type_key
            &&& next.region == header.region
            &&& next.birth_scope_depth == header.birth_scope_depth
        }),
    decreases j,
{
    let turn = turns[j];
    if j > 0 {
        law_list_keeps_its_type(turns, 0, j - 1);
        if i < j {
            law_list_keeps_its_type(turns, i, j - 1);
        }
    }
    law_list_counts_its_changes(turns, j);
    assert(turn.made());
    if turn.next.capacity != turn.header.capacity {
        assert(turn.next.capacity == grown_capacity(turn.header.capacity));
        if turn.header.capacity == 0 {
            lemma2_to64();
            assert(turn.next.capacity == 4 * pow2(0));
        } else {
            let doublings = choose|doublings: nat|
                turn.header.capacity == 4 * #[trigger] pow2(doublings);
            lemma_pow2_unfold(doublings + 1);
            assert(turn.next.capacity == 4 * pow2(doublings + 1));
        }
    }
}

} // verus!

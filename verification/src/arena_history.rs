//! What an arena amounts to over any number of calls.

use vstd::prelude::*;

use crate::arena::{ArenaMark, PageBackend, PagedArena};
use crate::memory::bytes_at;

verus! {

/// What is asked of an arena, and what came of it.
#[allow(inconsistent_fields)]
pub enum ArenaAct {
    /// Memory that was handed out.
    Served { address: u64, size: int, align: int },
    /// A request that could not be served.
    Refused,
    Mark { mark: ArenaMark },
    /// The last mark that was not rewound is rewound.
    Rewind,
}

/// Whether an act makes `after` of `before`.
pub open spec fn is_step<B: PageBackend>(
    before: PagedArena<B>,
    act: ArenaAct,
    after: PagedArena<B>,
) -> bool {
    match act {
        ArenaAct::Served { address, size, align } => {
            &&& after.continues(before)
            &&& size > 0
            &&& after.placed(before, address, size, align)
        },
        ArenaAct::Refused => after.continues(before) && after.keeps_memory(before),
        ArenaAct::Mark { mark } => after.marked_from(before, mark),
        ArenaAct::Rewind => {
            &&& before.marks().len() > 0
            &&& after.rewound_from(before, before.marks().last())
        },
    }
}

/// A run of acts from one arena to the next that never rewinds below the first
/// `depth` marks.
pub open spec fn is_run<B: PageBackend>(
    states: Seq<PagedArena<B>>,
    acts: Seq<ArenaAct>,
    depth: int,
) -> bool {
    &&& states.len() == acts.len() + 1
    &&& forall|i: int|
        0 <= i < acts.len() ==> is_step(#[trigger] states[i], acts[i], states[i + 1])
    &&& forall|i: int| 0 <= i < states.len() ==> (#[trigger] states[i]).marks().len() >= depth
}

/// Throughout a run, the memory that a mark found is as it was, and every later
/// mark found it too.
proof fn lemma_run_keeps_marked_memory<B: PageBackend>(
    start: PagedArena<B>,
    mark: ArenaMark,
    states: Seq<PagedArena<B>>,
    acts: Seq<ArenaAct>,
    i: int,
)
    requires
        states[0].marked_from(start, mark),
        is_run(states, acts, start.marks().len() as int + 1),
        0 <= i < states.len(),
    ensures
        states[i].marks().len() > start.marks().len(),
        states[i].marks().take(start.marks().len() as int + 1) == states[0].marks(),
        forall|k: int|
            start.marks().len() <= k < states[i].marks().len() ==> mark.allocated().subset_of(
                (#[trigger] states[i].marks()[k]).allocated(),
            ),
        forall|a: int| #[trigger]
            mark.allocated().contains(a) ==> states[i].mem().contains_key(a) && states[i].mem()[a]
                == start.mem()[a],
    decreases i,
{
    let depth = start.marks().len() as int;
    if i == 0 {
        assert(states[0].marks().take(depth + 1) =~= states[0].marks());
    } else {
        lemma_run_keeps_marked_memory(start, mark, states, acts, i - 1);
        let before = states[i - 1];
        let after = states[i];
        assert(is_step(states[i - 1], acts[i - 1], states[i - 1 + 1]));
        assert(states[i].marks().len() >= depth + 1);
        assert(after.marks().take(depth + 1) =~= before.marks().take(depth + 1));
        match acts[i - 1] {
            ArenaAct::Mark { mark: inner } => {
                assert forall|k: int|
                    depth <= k < after.marks().len() implies mark.allocated().subset_of(
                    (#[trigger] after.marks()[k]).allocated(),
                ) by {
                    if k < before.marks().len() {
                        assert(after.marks()[k] == before.marks()[k]);
                    } else {
                        assert forall|a: int| mark.allocated().contains(a) implies inner.allocated().contains(
                        a) by {
                            assert(before.mem().contains_key(a));
                        }
                    }
                }
            },
            ArenaAct::Rewind => {
                let last = before.marks().len() - 1;
                assert(mark.allocated().subset_of(before.marks()[last].allocated()));
                assert forall|k: int|
                    depth <= k < after.marks().len() implies mark.allocated().subset_of(
                    (#[trigger] after.marks()[k]).allocated(),
                ) by {
                    assert(after.marks()[k] == before.marks()[k]);
                }
            },
            _ => {},
        }
    }
}

/// Rewinding to a mark undoes any run of requests and complete pairs of marks and
/// rewinds since: the memory is what it was when the mark was taken, byte for byte,
/// with as much in use and as many pages active. The pages that were reserved since
/// stay reserved.
pub proof fn law_rewind_undoes_a_run<B: PageBackend>(
    start: PagedArena<B>,
    mark: ArenaMark,
    states: Seq<PagedArena<B>>,
    acts: Seq<ArenaAct>,
    end: PagedArena<B>,
)
    requires
        states[0].marked_from(start, mark),
        is_run(states, acts, start.marks().len() as int + 1),
        states.last().marks() == states[0].marks(),
        is_step(states.last(), ArenaAct::Rewind, end),
    ensures
        end.mem() == start.mem(),
        end.marks() == start.marks(),
        end.shape().used() == start.shape().used(),
        end.shape().active == start.shape().active,
        end.shape().caps == states.last().shape().caps,
        end.shape().reserved() == states.last().shape().reserved(),
{
    lemma_run_keeps_marked_memory(start, mark, states, acts, states.len() - 1);
    let last = states.last();
    assert(last.marks().last() == mark);
    assert(end.mem() =~= start.mem());
    assert(end.marks() =~= start.marks());
}

/// Memory that is handed out reads as zero, also where it was in use before a
/// rewind.
pub proof fn law_memory_is_handed_out_zeroed<B: PageBackend>(
    before: PagedArena<B>,
    after: PagedArena<B>,
    address: u64,
    size: int,
    align: int,
)
    requires
        is_step(before, ArenaAct::Served { address, size, align }, after),
    ensures
        forall|i: int|
            0 <= i < size ==> #[trigger] bytes_at(after.mem(), address as int, size as nat)[i] == 0,
{
}

} // verus!

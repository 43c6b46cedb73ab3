//! What arenas and governors are for: memory of its own for every request, few pages, and
//! never more than the limit.

use vstd::prelude::*;

use crate::arena::{
    greater, largest_regular, round_up, valid_align, ArenaAllocError, ArenaMark, ArenaMetrics,
    PageBackend, PagedArena, SystemAllocatorPageBackend,
};
use crate::meaning::{holds, keeps};
use crate::memory_governor::{GovernorReservation, MemoryGovernor};

verus! {

/// A request that is served gets aligned, zeroed memory that nothing else has, and no
/// byte that was allocated changes. What is in use grows by the request and less than
/// one alignment.
pub proof fn law_served_requests_get_memory<B: PageBackend>(
    arena: &mut PagedArena<B>,
    size: usize,
    align: usize,
    limit: usize,
    result: Result<u64, ArenaAllocError>,
)
    requires
        arena.wf(),
        size > 0,
        align == 1 || align == 2 || align == 4 || align == 8 || align == 16,
        call_ensures(PagedArena::<B>::try_alloc, (arena, size, align, limit), result),
    ensures
        keeps(old(arena).mem(), final(arena).mem()),
        result matches Ok(address) ==> {
            let grown = final(arena).shape().used() - old(arena).shape().used();
            &&& address as int % align as int == 0
            &&& forall|k: int|
                address <= k < address + size ==> !#[trigger] old(arena).mem().contains_key(k)
            &&& holds(
                final(arena).mem(),
                address as int,
                Seq::new(size as nat, |i: int| 0u8),
            )
            &&& size <= grown < size + align
        },
        result is Err ==> {
            &&& final(arena).mem() == old(arena).mem()
            &&& final(arena).shape() == old(arena).shape()
        },
{
    if let Ok(address) = result {
        let zeros = Seq::new(size as nat, |i: int| 0u8);
        assert forall|i: int| 0 <= i < size implies final(arena).mem()[address + i]
            == #[trigger] zeros[i] by {}
        assert(address % (align as u64) == 0);
    }
}

/// The page in use serves a request that fits behind what it holds, at the next aligned
/// place, and no page is reserved for it.
pub proof fn law_the_page_in_use_serves_first<B: PageBackend>(
    arena: &mut PagedArena<B>,
    size: usize,
    align: usize,
    limit: usize,
    result: Result<u64, ArenaAllocError>,
    place: int,
)
    requires
        arena.wf(),
        size > 0,
        valid_align(align as int),
        call_ensures(PagedArena::<B>::try_alloc, (arena, size, align, limit), result),
        0 < arena.shape().active <= arena.shape().cursors.len(),
        ({
            let last = arena.shape().active - 1;
            let held = arena.shape().cursors[last];
            &&& held >= 0
            &&& held <= place < held + align
            &&& place % align as int == 0
            &&& place + size <= arena.shape().caps[last]
        }),
    ensures
        result is Ok,
        final(arena).shape().caps == old(arena).shape().caps,
        final(arena).shape().active == old(arena).shape().active,
        final(arena).shape().cursors[old(arena).shape().active - 1] == place + size,
{
    let held = arena.shape().cursors[arena.shape().active - 1];
    crate::arena::lemma_round_up(held, align as int);
    assert(place == round_up(held, align as int)) by {
        let other = round_up(held, align as int);
        let a = align as int;
        assert(place == other) by (nonlinear_arith)
            requires
                place % a == 0,
                other % a == 0,
                held <= place < held + a,
                held <= other < held + a,
                a > 0,
        ;
    }
}

/// A page that was left is used again before a new one is reserved, and the smallest that
/// is large enough is.
pub proof fn law_left_pages_are_used_again<B: PageBackend>(
    arena: &mut PagedArena<B>,
    size: usize,
    align: usize,
    limit: usize,
    result: Result<u64, ArenaAllocError>,
    left: int,
)
    requires
        arena.wf(),
        size > 0,
        valid_align(align as int),
        call_ensures(PagedArena::<B>::try_alloc, (arena, size, align, limit), result),
        !arena.shape().fits(size as int, align as int),
        0 <= arena.shape().active <= left < arena.shape().caps.len(),
        arena.shape().caps[left] >= size,
    ensures
        result is Ok,
        final(arena).shape().caps.len() == old(arena).shape().caps.len(),
        final(arena).shape().active == old(arena).shape().active + 1,
        final(arena).shape().caps.to_multiset() == old(arena).shape().caps.to_multiset(),
        size <= final(arena).shape().caps[old(arena).shape().active]
            <= old(arena).shape().caps[left],
{
    let before = arena.shape();
    let after = final(arena).shape();
    assert(before.can_reuse(size as int));
    let j = choose|j: int|
        #[trigger] before.best_fit(size as int, j) && after == before.reused(j, size as int);
    assert(before.caps[left] >= size);
    let caps = before.caps;
    let swapped = crate::sums::exchanged(caps, before.active, j);
    assert(swapped[before.active] == caps[j]);
    lemma_exchanged(caps, before.active, j);
}

proof fn lemma_exchanged(s: Seq<int>, i: int, j: int)
    requires
        0 <= i < s.len(),
        0 <= j < s.len(),
    ensures
        crate::sums::exchanged(s, i, j).to_multiset() == s.to_multiset(),
{
    broadcast use vstd::seq_lib::group_to_multiset_ensures;

    vstd::seq_lib::to_multiset_update(s, i, s[j]);
    vstd::seq_lib::to_multiset_update(s.update(i, s[j]), j, s[i]);
    assert(crate::sums::exchanged(s, i, j) =~= s.update(i, s[j]).update(j, s[i]));
}

/// The first page of an arena has the capacity that it starts with, or that of the
/// request if it is larger.
pub proof fn law_first_page(
    identity: u64,
    fresh: PagedArena<SystemAllocatorPageBackend>,
    arena: &mut PagedArena<SystemAllocatorPageBackend>,
    size: usize,
    align: usize,
    result: Result<u64, ArenaAllocError>,
)
    requires
        call_ensures(
            PagedArena::<SystemAllocatorPageBackend>::new,
            (identity,),
            fresh,
        ),
        *arena == fresh,
        size > 0,
        valid_align(align as int),
        call_ensures(
            PagedArena::<SystemAllocatorPageBackend>::allocate,
            (arena, size, align),
            result,
        ),
        result is Ok,
    ensures
        final(arena).shape().reserved() == if size > 4096 {
            size as int
        } else {
            4096
        },
        final(arena).shape().used() == size,
{
    let shape = arena.shape();
    assert(shape.caps.take(0) =~= Seq::<int>::empty());
    assert(!shape.can_reuse(size as int));
    assert(shape.used() == 0);
}

/// A new page has twice the capacity of the largest page in use, up to the usual one, or
/// that of the request if it is larger. Pages for one large request do not count.
pub proof fn law_pages_double(
    arena: &mut PagedArena<SystemAllocatorPageBackend>,
    size: usize,
    align: usize,
    limit: usize,
    result: Result<u64, ArenaAllocError>,
    largest: int,
    place: int,
)
    requires
        arena.wf(),
        size > 0,
        valid_align(align as int),
        call_ensures(
            PagedArena::<SystemAllocatorPageBackend>::try_alloc,
            (arena, size, align, limit),
            result,
        ),
        result is Ok,
        arena.needs_page(size as int, align as int),
        0 <= place < arena.shape().active <= arena.shape().caps.len(),
        arena.shape().caps[place] == largest,
        0 < largest <= 65536,
        forall|i: int|
            0 <= i < arena.shape().active ==> #[trigger] arena.shape().caps[i] <= largest
                || arena.shape().caps[i] > 65536,
    ensures
        ({
            let usual = if 2 * largest <= 65536 {
                2 * largest
            } else {
                65536
            };
            final(arena).shape().reserved() - old(arena).shape().reserved() == if size > usual {
                size as int
            } else {
                usual
            }
        }),
{
    let shape = arena.shape();
    let caps = shape.caps.take(shape.active);
    lemma_largest(caps, place, largest);
    assert(!shape.fits(size as int, align as int) && !shape.can_reuse(size as int));
}

proof fn lemma_largest(caps: Seq<int>, place: int, largest: int)
    requires
        0 <= place < caps.len(),
        caps[place] == largest,
        0 < largest <= 65536,
        forall|i: int| 0 <= i < caps.len() ==> #[trigger] caps[i] <= largest || caps[i] > 65536,
    ensures
        largest_regular(caps) == largest,
    decreases caps.len(),
{
    let rest = caps.drop_last();
    lemma_largest_at_most(rest, largest);
    if place < rest.len() {
        lemma_largest(rest, place, largest);
    }
    assert(caps[caps.len() - 1] <= largest || caps[caps.len() - 1] > 65536);
}

proof fn lemma_largest_at_most(caps: Seq<int>, largest: int)
    requires
        0 < largest,
        forall|i: int| 0 <= i < caps.len() ==> #[trigger] caps[i] <= largest || caps[i] > 65536,
    ensures
        largest_regular(caps) <= largest,
    decreases caps.len(),
{
    if caps.len() > 0 {
        assert(caps[caps.len() - 1] <= largest || caps[caps.len() - 1] > 65536);
        lemma_largest_at_most(caps.drop_last(), largest);
    }
}

/// No page is reserved that exceeds the limit.
pub proof fn law_the_limit_holds<B: PageBackend>(
    arena: &mut PagedArena<B>,
    size: usize,
    align: usize,
    limit: usize,
    result: Result<u64, ArenaAllocError>,
)
    requires
        arena.wf(),
        size > 0,
        valid_align(align as int),
        call_ensures(PagedArena::<B>::try_alloc, (arena, size, align, limit), result),
    ensures
        final(arena).shape().reserved() == old(arena).shape().reserved()
            || final(arena).shape().reserved() <= limit,
        final(arena).shape().reserved() >= old(arena).shape().reserved(),
        old(arena).needs_page(size as int, align as int) && old(arena).shape().reserved() + size
            > limit ==> result is Err,
{
}

/// What an arena shows of itself is what it holds.
pub proof fn law_arena_metrics<B: PageBackend>(
    arena: PagedArena<B>,
    metrics: ArenaMetrics,
    pages: usize,
    active: usize,
)
    requires
        arena.wf(),
        call_ensures(PagedArena::<B>::metrics, (&arena,), metrics),
        call_ensures(PagedArena::<B>::page_count, (&arena,), pages),
        call_ensures(PagedArena::<B>::active_page_count, (&arena,), active),
    ensures
        metrics.used_bytes == crate::sums::sum(arena.shape().cursors),
        metrics.reserved_bytes == crate::sums::sum(arena.shape().caps),
        metrics.used_bytes <= metrics.reserved_bytes,
        pages == arena.shape().caps.len(),
        active == arena.shape().active,
{
}

/// One more of what was counted, from zero again behind the largest number.
pub open spec fn is_one_more(before: u64, after: u64) -> bool {
    after as int == (before + 1) % 0x1_0000_0000_0000_0000
}

/// What an arena notes of a request: one that the page in use serves, one that a page
/// that was left serves, one that a new page serves, a usual one or one for it alone, and
/// one that the limit denies.
pub proof fn law_requests_are_noted<B: PageBackend>(
    arena: &mut PagedArena<B>,
    size: usize,
    align: usize,
    limit: usize,
    result: Result<u64, ArenaAllocError>,
)
    requires
        arena.wf(),
        size > 0,
        valid_align(align as int),
        call_ensures(PagedArena::<B>::try_alloc, (arena, size, align, limit), result),
    ensures
        ({
            let shape = old(arena).shape();
            let before = old(arena).history().events;
            let after = final(arena).history().events;
            let fast = shape.fits(size as int, align as int);
            let again = !fast && shape.can_reuse(size as int);
            let fresh = !fast && !again && result is Ok;
            let denied = !fast && !again && (result matches Err(ArenaAllocError::Limit))
                && shape.reserved() + shape.fresh_capacity(size as int) > limit;
            &&& fast ==> is_one_more(
                before.active_page_fast_path_allocations,
                after.active_page_fast_path_allocations,
            )
            &&& !fast ==> {
                &&& after.active_page_fast_path_allocations
                    == before.active_page_fast_path_allocations
                &&& is_one_more(before.slow_path_allocations, after.slow_path_allocations)
            }
            &&& fast ==> after.slow_path_allocations == before.slow_path_allocations
            &&& again ==> is_one_more(
                before.inactive_page_reuse_events,
                after.inactive_page_reuse_events,
            )
            &&& !again ==> after.inactive_page_reuse_events == before.inactive_page_reuse_events
            &&& fresh && size <= 65536 ==> is_one_more(
                before.fresh_regular_page_allocations,
                after.fresh_regular_page_allocations,
            )
            &&& fresh && size > 65536 ==> is_one_more(
                before.fresh_oversized_page_allocations,
                after.fresh_oversized_page_allocations,
            )
            &&& denied ==> is_one_more(
                before.allocation_limit_denials,
                after.allocation_limit_denials,
            )
            &&& result is Ok ==> {
                &&& after.allocation_limit_denials == before.allocation_limit_denials
                &&& final(arena).history().peak_used_bytes >= final(arena).shape().used()
                &&& final(arena).history().peak_used_bytes >= old(arena).history().peak_used_bytes
            }
            &&& after.rewind_events == before.rewind_events
            &&& after.rewound_bytes == before.rewound_bytes
        }),
{
    final(arena).lemma_used_at_most_reserved();
}

/// What an arena notes of a rewind: one more, and the bytes that it gave back. No page
/// goes back to the host.
pub proof fn law_rewinds_are_noted<B: PageBackend>(arena: &mut PagedArena<B>, mark: ArenaMark)
    requires
        arena.wf(),
        arena.marks().len() > 0,
        arena.marks().last() == mark,
        call_ensures(PagedArena::<B>::rewind, (arena, mark), ()),
        arena.shape().used() - mark.used() <= u64::MAX,
        mark.used() <= arena.shape().used(),
    ensures
        is_one_more(
            old(arena).history().events.rewind_events,
            final(arena).history().events.rewind_events,
        ),
        final(arena).history().events.rewound_bytes as int == (
        old(arena).history().events.rewound_bytes + (old(arena).shape().used()
            - final(arena).shape().used())) % 0x1_0000_0000_0000_0000,
        final(arena).shape().caps == old(arena).shape().caps,
        final(arena).shape().used() == mark.used(),
        final(arena).history().peak_used_bytes == old(arena).history().peak_used_bytes,
{
}

/// A governor that was just made has granted nothing.
pub proof fn law_new_governor(limit: usize, governor: MemoryGovernor)
    requires
        call_ensures(MemoryGovernor::new, (limit,), governor),
    ensures
        governor@.hard_limit_bytes == limit,
        governor@.current_capacity_bytes == 0,
        governor@.peak_capacity_bytes == 0,
        governor@.grant_events == 0,
        governor@.denial_events == 0,
        governor@.release_events == 0,
        governor@.granted_bytes_cumulative == 0,
        governor@.released_bytes_cumulative == 0,
{
}

/// A governor grants just what fits under its limit, and counts what it grants and
/// denies.
pub proof fn law_governor_grants_what_fits(
    governor: &mut MemoryGovernor,
    bytes: usize,
    grant: Option<GovernorReservation>,
)
    requires
        governor.wf(),
        bytes > 0,
        call_ensures(MemoryGovernor::try_acquire, (governor, bytes), grant),
    ensures
        final(governor)@.hard_limit_bytes == old(governor)@.hard_limit_bytes,
        final(governor)@.current_capacity_bytes <= old(governor)@.hard_limit_bytes,
        final(governor)@.release_events == old(governor)@.release_events,
        final(governor)@.released_bytes_cumulative == old(governor)@.released_bytes_cumulative,
        grant is Some <==> old(governor)@.current_capacity_bytes + bytes
            <= old(governor)@.hard_limit_bytes,
        grant matches Some(reservation) ==> {
            let state = final(governor)@;
            let earlier = old(governor)@;
            &&& reservation.granted() == bytes
            &&& state.current_capacity_bytes == earlier.current_capacity_bytes + bytes
            &&& state.peak_capacity_bytes == greater(
                earlier.peak_capacity_bytes as int,
                state.current_capacity_bytes as int,
            )
            &&& state.grant_events as int == (earlier.grant_events + 1)
                % 0x1_0000_0000_0000_0000
            &&& state.granted_bytes_cumulative as int == (earlier.granted_bytes_cumulative
                + bytes) % 0x1_0000_0000_0000_0000
            &&& state.denial_events == earlier.denial_events
        },
        grant is None ==> {
            let state = final(governor)@;
            let earlier = old(governor)@;
            &&& state.current_capacity_bytes == earlier.current_capacity_bytes
            &&& state.peak_capacity_bytes == earlier.peak_capacity_bytes
            &&& state.grant_events == earlier.grant_events
            &&& state.granted_bytes_cumulative == earlier.granted_bytes_cumulative
            &&& state.denial_events as int == (earlier.denial_events + 1)
                % 0x1_0000_0000_0000_0000
        },
{
}

/// What comes back to a governor can be granted again.
pub proof fn law_governor_takes_back(
    governor: &mut MemoryGovernor,
    reservation: GovernorReservation,
)
    requires
        governor.wf(),
        reservation.granted() <= governor@.current_capacity_bytes,
        call_ensures(MemoryGovernor::release, (governor, reservation), ()),
    ensures
        ({
            let state = final(governor)@;
            let earlier = old(governor)@;
            &&& state.hard_limit_bytes == earlier.hard_limit_bytes
            &&& state.current_capacity_bytes == earlier.current_capacity_bytes
                - reservation.granted()
            &&& state.peak_capacity_bytes == earlier.peak_capacity_bytes
            &&& state.grant_events == earlier.grant_events
            &&& state.denial_events == earlier.denial_events
            &&& state.granted_bytes_cumulative == earlier.granted_bytes_cumulative
            &&& state.release_events as int == (earlier.release_events + 1)
                % 0x1_0000_0000_0000_0000
            &&& state.released_bytes_cumulative as int == (earlier.released_bytes_cumulative
                + reservation.granted()) % 0x1_0000_0000_0000_0000
        }),
{
}

} // verus!

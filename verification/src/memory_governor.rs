//! Shared hard budget for retained arena page capacity.
//!
//! A governor admits or denies page capacity before a page is reserved. Every
//! grant is a [`GovernorReservation`]; handing it back returns exactly the
//! capacity that was granted.

use vstd::prelude::*;

use crate::numbers::{lemma_shows, lemma_shows_more, shows};
use crate::sums::{lemma_sum_push, lemma_sum_take_at_most, sum};

verus! {

/// Point-in-time accounting for one shared memory governor.
#[derive(Clone, Copy, Debug, PartialEq, Eq, Structural)]
pub struct MemoryGovernorTelemetry {
    pub hard_limit_bytes: u64,
    pub current_capacity_bytes: u64,
    pub peak_capacity_bytes: u64,
    pub grant_events: u64,
    pub denial_events: u64,
    pub release_events: u64,
    pub granted_bytes_cumulative: u64,
    pub released_bytes_cumulative: u64,
}

impl Default for MemoryGovernorTelemetry {
    fn default() -> (telemetry: Self)
        ensures
            telemetry == governor_start(0),
    {
        MemoryGovernorTelemetry {
            hard_limit_bytes: 0,
            current_capacity_bytes: 0,
            peak_capacity_bytes: 0,
            grant_events: 0,
            denial_events: 0,
            release_events: 0,
            granted_bytes_cumulative: 0,
            released_bytes_cumulative: 0,
        }
    }
}

/// The accounting of a governor that has granted nothing yet.
pub open spec fn governor_start(hard_limit_bytes: u64) -> MemoryGovernorTelemetry {
    MemoryGovernorTelemetry {
        hard_limit_bytes,
        current_capacity_bytes: 0,
        peak_capacity_bytes: 0,
        grant_events: 0,
        denial_events: 0,
        release_events: 0,
        granted_bytes_cumulative: 0,
        released_bytes_cumulative: 0,
    }
}

/// Whether `bytes` more still fit under the hard limit.
pub open spec fn governor_admits(state: MemoryGovernorTelemetry, bytes: int) -> bool {
    state.current_capacity_bytes + bytes <= state.hard_limit_bytes
}

/// The accounting after `bytes` were granted.
pub open spec fn governor_granted(
    state: MemoryGovernorTelemetry,
    bytes: u64,
) -> MemoryGovernorTelemetry {
    let next = (state.current_capacity_bytes + bytes) as u64;
    MemoryGovernorTelemetry {
        current_capacity_bytes: next,
        peak_capacity_bytes: if next > state.peak_capacity_bytes {
            next
        } else {
            state.peak_capacity_bytes
        },
        grant_events: state.grant_events.wrapping_add(1),
        granted_bytes_cumulative: state.granted_bytes_cumulative.wrapping_add(bytes),
        ..state
    }
}

/// The accounting after a request was denied.
pub open spec fn governor_denied(state: MemoryGovernorTelemetry) -> MemoryGovernorTelemetry {
    MemoryGovernorTelemetry { denial_events: state.denial_events.wrapping_add(1), ..state }
}

/// The accounting after a grant of `bytes` came back.
pub open spec fn governor_released(
    state: MemoryGovernorTelemetry,
    bytes: u64,
) -> MemoryGovernorTelemetry {
    MemoryGovernorTelemetry {
        current_capacity_bytes: (state.current_capacity_bytes - bytes) as u64,
        release_events: state.release_events.wrapping_add(1),
        released_bytes_cumulative: state.released_bytes_cumulative.wrapping_add(bytes),
        ..state
    }
}

/// The accounting after the grants of `pages` pages of `bytes` bytes in all came
/// back.
pub open spec fn governor_released_pages(
    state: MemoryGovernorTelemetry,
    bytes: int,
    pages: int,
) -> MemoryGovernorTelemetry {
    MemoryGovernorTelemetry {
        current_capacity_bytes: (state.current_capacity_bytes - bytes) as u64,
        release_events: state.release_events.wrapping_add(pages as u64),
        released_bytes_cumulative: state.released_bytes_cumulative.wrapping_add(bytes as u64),
        ..state
    }
}

/// What every reachable accounting satisfies: the capacity that is out never
/// exceeds its own peak, the peak never exceeds the hard limit, and the
/// cumulative counters differ by exactly the capacity that is out.
pub open spec fn governor_valid(state: MemoryGovernorTelemetry) -> bool {
    &&& state.current_capacity_bytes <= state.peak_capacity_bytes
    &&& state.peak_capacity_bytes <= state.hard_limit_bytes
    &&& state.granted_bytes_cumulative.wrapping_sub(state.released_bytes_cumulative)
        == state.current_capacity_bytes
}

/// One successful grant.
#[must_use]
#[derive(Debug)]
pub struct GovernorReservation {
    bytes: u64,
}

impl GovernorReservation {
    /// The capacity that was granted.
    pub closed spec fn granted(&self) -> u64 {
        self.bytes
    }
}

/// Shared hard budget for current `PagedArena` page capacity.
pub struct MemoryGovernor {
    state: MemoryGovernorTelemetry,
}

impl View for MemoryGovernor {
    type V = MemoryGovernorTelemetry;

    closed spec fn view(&self) -> MemoryGovernorTelemetry {
        self.state
    }
}

impl MemoryGovernor {
    /// The invariant that every operation keeps.
    pub open spec fn wf(&self) -> bool {
        governor_valid(self@)
    }

    pub fn new(hard_limit_bytes: usize) -> (governor: Self)
        ensures
            governor.wf(),
            governor@ == governor_start(hard_limit_bytes as u64),
    {
        MemoryGovernor {
            state: MemoryGovernorTelemetry {
                hard_limit_bytes: hard_limit_bytes as u64,
                current_capacity_bytes: 0,
                peak_capacity_bytes: 0,
                grant_events: 0,
                denial_events: 0,
                release_events: 0,
                granted_bytes_cumulative: 0,
                released_bytes_cumulative: 0,
            },
        }
    }

    pub fn telemetry(&self) -> (telemetry: MemoryGovernorTelemetry)
        ensures
            telemetry == self@,
    {
        self.state
    }

    pub fn hard_limit_bytes(&self) -> (limit: u64)
        ensures
            limit == self@.hard_limit_bytes,
    {
        self.state.hard_limit_bytes
    }

    /// Admits `bytes` of page capacity when they fit under the hard limit.
    pub fn try_acquire(&mut self, bytes: usize) -> (reservation: Option<GovernorReservation>)
        requires
            old(self).wf(),
            bytes > 0,
        ensures
            final(self).wf(),
            reservation is Some <==> governor_admits(old(self)@, bytes as int),
            reservation matches Some(grant) ==> {
                &&& grant.granted() == bytes
                &&& final(self)@ == governor_granted(old(self)@, bytes as u64)
            },
            reservation is None ==> final(self)@ == governor_denied(old(self)@),
    {
        let amount: u64 = bytes as u64;
        match self.state.current_capacity_bytes.checked_add(amount) {
            None => {
                self.state.denial_events = self.state.denial_events.wrapping_add(1);
                None
            },
            Some(next) => {
                if next > self.state.hard_limit_bytes {
                    self.state.denial_events = self.state.denial_events.wrapping_add(1);
                    return None;
                }
                self.state.current_capacity_bytes = next;
                if next > self.state.peak_capacity_bytes {
                    self.state.peak_capacity_bytes = next;
                }
                self.state.grant_events = self.state.grant_events.wrapping_add(1);
                self.state.granted_bytes_cumulative =
                    self.state.granted_bytes_cumulative.wrapping_add(amount);
                Some(GovernorReservation { bytes: amount })
            },
        }
    }

    /// Takes one grant back.
    pub fn release(&mut self, reservation: GovernorReservation)
        requires
            old(self).wf(),
            reservation.granted() <= old(self)@.current_capacity_bytes,
        ensures
            final(self).wf(),
            final(self)@ == governor_released(old(self)@, reservation.granted()),
    {
        let amount: u64 = reservation.bytes;
        self.state.current_capacity_bytes = self.state.current_capacity_bytes - amount;
        self.state.release_events = self.state.release_events.wrapping_add(1);
        self.state.released_bytes_cumulative =
            self.state.released_bytes_cumulative.wrapping_add(amount);
    }
}

/// Admission never overshoots: whatever is requested of a valid governor, the
/// capacity that is out afterwards is at most the hard limit.
pub proof fn law_admission_never_overshoots(state: MemoryGovernorTelemetry, bytes: u64)
    requires
        governor_valid(state),
    ensures
        governor_admits(state, bytes as int) ==> {
            &&& governor_valid(governor_granted(state, bytes))
            &&& governor_granted(state, bytes).current_capacity_bytes <= state.hard_limit_bytes
        },
        governor_valid(governor_denied(state)),
        governor_denied(state).current_capacity_bytes == state.current_capacity_bytes,
{
}

/// Releasing a grant returns exactly the granted capacity: the capacity that is
/// out is what it was before the grant, and so is the room left for others.
pub proof fn law_release_undoes_a_grant(state: MemoryGovernorTelemetry, bytes: u64)
    requires
        governor_valid(state),
        governor_admits(state, bytes as int),
    ensures
        governor_released(governor_granted(state, bytes), bytes).current_capacity_bytes
            == state.current_capacity_bytes,
        governor_valid(governor_released(governor_granted(state, bytes), bytes)),
        forall|more: int|
            governor_admits(governor_released(governor_granted(state, bytes), bytes), more)
                <==> governor_admits(state, more),
{
}

/// What can happen to a governor. What comes back is one of the grants that are out,
/// named by its place among them.
pub enum GovernorEvent {
    Grant { bytes: u64 },
    Denial { bytes: u64 },
    Release { place: int },
}

/// The accounting after an event, where the grants `live` are out before it.
pub open spec fn governor_after(
    state: MemoryGovernorTelemetry,
    live: Seq<u64>,
    event: GovernorEvent,
) -> MemoryGovernorTelemetry {
    match event {
        GovernorEvent::Grant { bytes } => governor_granted(state, bytes),
        GovernorEvent::Denial { .. } => governor_denied(state),
        GovernorEvent::Release { place } => governor_released(state, live[place]),
    }
}

/// Whether an event can happen: a request is granted where it is admitted and denied
/// where it is not, and what comes back is out.
pub open spec fn governor_allows(
    state: MemoryGovernorTelemetry,
    live: Seq<u64>,
    event: GovernorEvent,
) -> bool {
    match event {
        GovernorEvent::Grant { bytes } => governor_admits(state, bytes as int),
        GovernorEvent::Denial { bytes } => !governor_admits(state, bytes as int),
        GovernorEvent::Release { place } => 0 <= place < live.len(),
    }
}

/// The grants that are out after the first `n` events, in the order in which they
/// were made.
pub open spec fn live_after(events: Seq<GovernorEvent>, n: int) -> Seq<u64>
    decreases n,
{
    if n <= 0 {
        Seq::empty()
    } else {
        let live = live_after(events, n - 1);
        match events[n - 1] {
            GovernorEvent::Grant { bytes } => live.push(bytes),
            GovernorEvent::Denial { .. } => live,
            GovernorEvent::Release { place } => live.remove(place),
        }
    }
}

/// How many grants, denials and releases there are in the first `n` events.
pub open spec fn events_after(events: Seq<GovernorEvent>, n: int) -> (int, int, int)
    decreases n,
{
    if n <= 0 {
        (0, 0, 0)
    } else {
        let (grants, denials, releases) = events_after(events, n - 1);
        match events[n - 1] {
            GovernorEvent::Grant { .. } => (grants + 1, denials, releases),
            GovernorEvent::Denial { .. } => (grants, denials + 1, releases),
            GovernorEvent::Release { .. } => (grants, denials, releases + 1),
        }
    }
}

/// The bytes that were granted and the bytes that came back in the first `n` events.
pub open spec fn bytes_after(events: Seq<GovernorEvent>, n: int) -> (int, int)
    decreases n,
{
    if n <= 0 {
        (0, 0)
    } else {
        let (granted, released) = bytes_after(events, n - 1);
        match events[n - 1] {
            GovernorEvent::Grant { bytes } => (granted + bytes, released),
            GovernorEvent::Denial { .. } => (granted, released),
            GovernorEvent::Release { place } => (
                granted,
                released + live_after(events, n - 1)[place],
            ),
        }
    }
}

/// All bytes of these grants.
pub open spec fn grants_total(grants: Seq<u64>) -> int {
    sum(grants.map_values(|bytes: u64| bytes as int))
}

/// The states that a new governor goes through in these events.
pub open spec fn is_governor_history(
    states: Seq<MemoryGovernorTelemetry>,
    events: Seq<GovernorEvent>,
) -> bool {
    &&& states.len() == events.len() + 1
    &&& states[0] == governor_start(states[0].hard_limit_bytes)
    &&& forall|i: int|
        0 <= i < events.len() ==> {
            &&& governor_allows(#[trigger] states[i], live_after(events, i), events[i])
            &&& states[i + 1] == governor_after(states[i], live_after(events, i), events[i])
        }
}

/// After any events, the capacity that is out is the sum of the grants that are out,
/// and what was granted less what came back. It is at most its peak, and the peak at
/// most the hard limit, which never changes. Every event is counted, up to the largest
/// number there is and from zero again. Once nothing is out, there were as many
/// releases as grants.
pub proof fn law_capacity_out_is_what_is_held(
    states: Seq<MemoryGovernorTelemetry>,
    events: Seq<GovernorEvent>,
    n: int,
)
    requires
        is_governor_history(states, events),
        0 <= n < states.len(),
    ensures
        ({
            let state = states[n];
            let live = live_after(events, n);
            let (grants, denials, releases) = events_after(events, n);
            let (granted, released) = bytes_after(events, n);
            &&& governor_valid(state)
            &&& state.hard_limit_bytes == states[0].hard_limit_bytes
            &&& state.current_capacity_bytes <= state.peak_capacity_bytes
                <= state.hard_limit_bytes
            &&& state.current_capacity_bytes == grants_total(live)
            &&& state.current_capacity_bytes == granted - released
            &&& grants - releases == live.len()
            &&& shows(state.grant_events, grants)
            &&& shows(state.denial_events, denials)
            &&& shows(state.release_events, releases)
            &&& shows(state.granted_bytes_cumulative, granted)
            &&& shows(state.released_bytes_cumulative, released)
            &&& live.len() == 0 ==> {
                &&& state.current_capacity_bytes == 0
                &&& state.grant_events == state.release_events
                &&& state.granted_bytes_cumulative == state.released_bytes_cumulative
            }
        }),
{
    lemma_amounts(states, events, n);
    lemma_counts(states, events, n);
    let (grants, _, _) = events_after(events, n);
    let (granted, _) = bytes_after(events, n);
    lemma_shows(states[n].release_events, grants);
    lemma_shows(states[n].released_bytes_cumulative, granted);
}

/// What is out over a history.
proof fn lemma_amounts(
    states: Seq<MemoryGovernorTelemetry>,
    events: Seq<GovernorEvent>,
    n: int,
)
    requires
        is_governor_history(states, events),
        0 <= n < states.len(),
    ensures
        governor_valid(states[n]),
        states[n].hard_limit_bytes == states[0].hard_limit_bytes,
        states[n].current_capacity_bytes == grants_total(live_after(events, n)),
        states[n].current_capacity_bytes == bytes_after(events, n).0 - bytes_after(events, n).1,
        events_after(events, n).0 - events_after(events, n).2 == live_after(events, n).len(),
        events_after(events, n).0 >= 0,
        bytes_after(events, n).0 >= 0,
    decreases n,
{
    if n > 0 {
        lemma_amounts(states, events, n - 1);
        let state = states[n - 1];
        let live = live_after(events, n - 1);
        assert(governor_allows(state, live, events[n - 1]));
        match events[n - 1] {
            GovernorEvent::Grant { bytes } => {
                assert(live.push(bytes).map_values(|bytes: u64| bytes as int)
                    =~= live.map_values(|bytes: u64| bytes as int).push(bytes as int));
                lemma_sum_push(live.map_values(|bytes: u64| bytes as int), bytes as int);
            },
            GovernorEvent::Denial { .. } => {},
            GovernorEvent::Release { place } => {
                lemma_grant_returned(live, place);
            },
        }
    }
}

/// What is counted over a history.
proof fn lemma_counts(
    states: Seq<MemoryGovernorTelemetry>,
    events: Seq<GovernorEvent>,
    n: int,
)
    requires
        is_governor_history(states, events),
        0 <= n < states.len(),
    ensures
        ({
            let (grants, denials, releases) = events_after(events, n);
            let (granted, released) = bytes_after(events, n);
            &&& shows(states[n].grant_events, grants)
            &&& shows(states[n].denial_events, denials)
            &&& shows(states[n].release_events, releases)
            &&& shows(states[n].granted_bytes_cumulative, granted)
            &&& shows(states[n].released_bytes_cumulative, released)
        }),
    decreases n,
{
    lemma_shows(0, 0);
    if n > 0 {
        lemma_counts(states, events, n - 1);
        let state = states[n - 1];
        let live = live_after(events, n - 1);
        let (grants, denials, releases) = events_after(events, n - 1);
        let (granted, released) = bytes_after(events, n - 1);
        assert(governor_allows(state, live, events[n - 1]));
        match events[n - 1] {
            GovernorEvent::Grant { bytes } => {
                lemma_shows_more(state.grant_events, grants, 1);
                lemma_shows_more(state.granted_bytes_cumulative, granted, bytes);
            },
            GovernorEvent::Denial { .. } => {
                lemma_shows_more(state.denial_events, denials, 1);
            },
            GovernorEvent::Release { place } => {
                lemma_shows_more(state.release_events, releases, 1);
                lemma_shows_more(state.released_bytes_cumulative, released, live[place]);
            },
        }
    }
}

/// A grant that comes back takes its bytes off the sum, which they were part of.
proof fn lemma_grant_returned(live: Seq<u64>, place: int)
    requires
        0 <= place < live.len(),
    ensures
        grants_total(live.remove(place)) == grants_total(live) - live[place],
        live[place] <= grants_total(live),
    decreases live.len(),
{
    let amounts = live.map_values(|bytes: u64| bytes as int);
    let shorter = live.drop_last();
    assert(shorter.map_values(|bytes: u64| bytes as int) =~= amounts.drop_last());
    assert(grants_total(shorter) >= 0) by {
        lemma_sum_take_at_most(amounts, amounts.len() - 1);
        assert(amounts.take(amounts.len() - 1) =~= amounts.drop_last());
    }
    if place == live.len() - 1 {
        assert(live.remove(place) =~= shorter);
    } else {
        lemma_grant_returned(shorter, place);
        let rest = live.remove(place);
        assert(rest.drop_last() =~= shorter.remove(place));
        assert(rest.map_values(|bytes: u64| bytes as int).drop_last()
            =~= rest.drop_last().map_values(|bytes: u64| bytes as int));
        assert(rest.last() == live.last());
    }
}

/// A grant that comes back lowers what is out by what was granted, counts one release
/// more and keeps the peak.
pub proof fn law_release_keeps_the_peak(state: MemoryGovernorTelemetry, bytes: u64)
    requires
        governor_valid(state),
        bytes <= state.current_capacity_bytes,
    ensures
        ({
            let after = governor_released(state, bytes);
            &&& governor_valid(after)
            &&& after.current_capacity_bytes == state.current_capacity_bytes - bytes
            &&& after.release_events == state.release_events.wrapping_add(1)
            &&& after.released_bytes_cumulative == state.released_bytes_cumulative.wrapping_add(
                bytes,
            )
            &&& after.peak_capacity_bytes == state.peak_capacity_bytes
        }),
{
}

} // verus!

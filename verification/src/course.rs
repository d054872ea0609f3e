//! The course of a run: which events come up, in which order, and where the
//! run ends.

use crate::arith;
use crate::event::{Event, EventKind};
use crate::pace;
use crate::scheduler::{Action, ReevaluationPolicy};
use crate::sim;
use crate::sim::Sim;
use crate::sound;
use vstd::prelude::*;

verus! {

/// The event that ends a run that begins in a state.
pub open spec fn end_of(start: Sim) -> Event {
    Event { time: start.end(), seq: start.seq, kind: EventKind::SimulationEnd }
}

/// Whether no event that ends the simulation is pending.
pub open spec fn endless(s: Sim) -> bool {
    forall|e: Event| #[trigger] s.events.count(e) > 0 ==> !(e.kind is SimulationEnd)
}

/// Whether an event that comes up in a state was meant for an earlier state of
/// its job.
pub open spec fn is_void(s: Sim, event: Event) -> bool {
    (Sim { now: event.time, ..s }).is_stale(event.kind)
}

/// How many of the first `n` events of a run are acted on.
pub open spec fn acted_on(events: Seq<Event>, states: Seq<Sim>, n: int) -> nat
    decreases n,
{
    if n <= 0 {
        0
    } else {
        acted_on(events, states, n - 1) + if is_void(states[n - 1], events[n - 1]) {
            0nat
        } else {
            1nat
        }
    }
}

/// Whether the event that ends the run is the only one of its kind that is
/// pending.
spec fn ends_by(s: Sim, end: Event) -> bool {
    &&& s.events.count(end) > 0
    &&& forall|e: Event| #[trigger] s.events.count(e) > 0 && e.kind is SimulationEnd ==> e == end
}

proof fn lemma_step(s: Sim, event: Event, t: Sim)
    requires
        sim::steps(s, event, t),
    ensures
        t.now == event.time,
        t.seq >= s.seq,
        forall|e: Event|
            {
                &&& #[trigger] t.events.count(e) >= s.events.remove(event).count(e)
                &&& t.events.count(e) > s.events.remove(event).count(e) ==> e.seq >= s.seq && !(
                e.kind is SimulationEnd)
            },
        is_void(s, event) ==> t == (Sim {
            now: event.time,
            events: s.events.remove(event),
            ..s
        }),
        t.processed == if is_void(s, event) {
            s.processed
        } else {
            arith::sat_add(s.processed, 1)
        },
        event.kind is SimulationEnd ==> t.events == s.events.remove(event),
{
    let answers = choose|answers: Seq<Seq<Action>>|
        t == #[trigger] s.processed_event(event, answers);
    let at = Sim { now: event.time, events: s.events.remove(event), ..s };
    assert(at.is_stale(event.kind) == is_void(s, event));
    let counted = Sim { processed: arith::sat_add(at.processed, 1), ..at };
    pace::law_events_keep_frame(counted, event.kind, answers);
    if event.kind is SimulationEnd {
        reveal(Sim::handled);
    }
}

proof fn lemma_end_waits(
    start: Sim,
    policy: ReevaluationPolicy,
    events: Seq<Event>,
    states: Seq<Sim>,
    n: int,
)
    requires
        start.seq < u64::MAX,
        endless(start),
        sim::is_run(start.begun(policy), events, states),
        0 <= n <= events.len(),
        forall|i: int| 0 <= i < n ==> !((#[trigger] events[i]).kind is SimulationEnd),
    ensures
        ends_by(states[n], end_of(start)),
    decreases n,
{
    let end = end_of(start);
    if n == 0 {
        let a = Sim {
            policy,
            generation: arith::sat_add(start.generation, 1),
            last_reevaluation: None,
            ..start
        };
        let b = a.scheduled(start.end(), EventKind::SimulationEnd);
        assert(ends_by(b, end));
        assert(ends_by(b.reevaluation_pending(), end));
    } else {
        lemma_end_waits(start, policy, events, states, n - 1);
        let s = states[n - 1];
        let e = events[n - 1];
        lemma_step(s, e, states[n]);
        assert(s.events.remove(e).count(end) == s.events.count(end));
        assert forall|f: Event| #[trigger] states[n].events.count(f) > 0
            && f.kind is SimulationEnd implies f == end by {
            assert(s.events.remove(e).count(f) > 0);
            assert(s.events.count(f) > 0);
        }
    }
}

/// The last event of a run is the end that was fixed when it began.
proof fn lemma_last_is_end(
    start: Sim,
    policy: ReevaluationPolicy,
    events: Seq<Event>,
    states: Seq<Sim>,
)
    requires
        start.seq < u64::MAX,
        endless(start),
        sim::is_run(start.begun(policy), events, states),
    ensures
        events.len() > 0,
        events.last() == end_of(start),
{
    let n = events.len() as int;
    if n == 0 || !(events.last().kind is SimulationEnd) {
        lemma_end_waits(start, policy, events, states, n);
        lemma_not_empty(states[n], end_of(start));
    } else {
        lemma_end_waits(start, policy, events, states, n - 1);
        let e = events[n - 1];
        assert(sim::steps(states[n - 1], e, states[n]));
    }
}

proof fn lemma_not_empty(s: Sim, e: Event)
    requires
        s.events.count(e) > 0,
    ensures
        s.events.len() > 0,
{
    broadcast use vstd::multiset::group_multiset_properties;

    assert(s.events.contains(e));
}

proof fn lemma_next_is_later(s: Sim, e: Event, t: Sim, f: Event, u: Sim)
    requires
        sound::sound(s),
        sound::sound(t),
        sim::steps(s, e, t),
        sim::steps(t, f, u),
    ensures
        e.before(f),
{
    lemma_step(s, e, t);
    assert(t.events.count(f) > 0);
    if s.events.remove(e).count(f) > 0 {
        assert(s.events.count(f) > 0);
        assert(!f.before(e));
        assert(s.events.count(e) == 1);
        assert(e != f);
    } else {
        assert(t.events.count(f) > s.events.remove(e).count(f));
    }
}

proof fn lemma_in_order(first: Sim, events: Seq<Event>, states: Seq<Sim>, i: int, j: int)
    requires
        sound::sound(first),
        sim::is_run(first, events, states),
        0 <= i < j < events.len(),
    ensures
        events[i].before(events[j]),
    decreases j - i,
{
    let e = events[j - 1];
    let f = events[j];
    sound::law_runs_keep_soundness(first, events, states, j - 1);
    sound::law_runs_keep_soundness(first, events, states, j);
    lemma_next_is_later(states[j - 1], e, states[j], f, states[j + 1]);
    if i < j - 1 {
        lemma_in_order(first, events, states, i, j - 1);
    }
}

proof fn lemma_due_comes_up(
    first: Sim,
    events: Seq<Event>,
    states: Seq<Sim>,
    i: int,
    e: Event,
) -> (j: int)
    requires
        sim::is_run(first, events, states),
        events.len() > 0,
        events.last().kind is SimulationEnd,
        0 <= i < states.len(),
        states[i].events.count(e) > 0,
        e.before(events.last()),
    ensures
        i <= j < events.len(),
        events[j] == e,
    decreases events.len() - i,
{
    let n = events.len() as int;
    let end = events[n - 1];
    if i == n {
        lemma_step(states[n - 1], end, states[n]);
        assert(states[n - 1].is_next(end));
        assert(states[n - 1].events.count(e) > 0);
        n
    } else if events[i] == e {
        i
    } else {
        let g = events[i];
        lemma_step(states[i], g, states[i + 1]);
        assert(states[i].events.remove(g).count(e) > 0);
        lemma_due_comes_up(first, events, states, i + 1, e)
    }
}

proof fn lemma_counted(first: Sim, events: Seq<Event>, states: Seq<Sim>, n: int)
    requires
        sim::is_run(first, events, states),
        0 <= n <= events.len(),
    ensures
        states[n].processed == if first.processed + acted_on(events, states, n) <= u64::MAX {
            first.processed + acted_on(events, states, n)
        } else {
            u64::MAX as int
        },
    decreases n,
{
    if n > 0 {
        lemma_counted(first, events, states, n - 1);
        let e = events[n - 1];
        lemma_step(states[n - 1], e, states[n]);
    }
}

/// A run from a sound state where no end is pending ends at the end of the
/// simulation. Events come up in the order of their times, and at one time in
/// the order in which they were scheduled. Every event that was pending at
/// some time and stands before the end comes up, and no other one does; among
/// these are all that were pending at the start and are due by the end. An
/// event that was meant for an earlier state of its job only moves the clock;
/// all others are counted.
pub proof fn law_runs_act_until_the_end(
    start: Sim,
    policy: ReevaluationPolicy,
    events: Seq<Event>,
    states: Seq<Sim>,
)
    requires
        sound::sound(start),
        start.seq < u64::MAX,
        endless(start),
        sim::is_run(start.begun(policy), events, states),
    ensures
        events.len() > 0,
        events.last() == end_of(start),
        states.last().now == start.end(),
        forall|i: int, j: int|
            0 <= i < j < events.len() ==> (#[trigger] events[i]).before(#[trigger] events[j]),
        forall|i: int, e: Event|
            0 <= i < states.len() && #[trigger] states[i].events.count(e) > 0 && e.before(
                end_of(start),
            ) ==> exists|j: int| i <= j < events.len() && #[trigger] events[j] == e,
        forall|e: Event| #[trigger]
            start.events.count(e) > 0 && e.time <= start.end() ==> exists|j: int|
                0 <= j < events.len() && #[trigger] events[j] == e,
        forall|i: int|
            0 <= i < events.len() && is_void(states[i], #[trigger] events[i]) ==> states[i + 1]
                == (Sim {
                now: events[i].time,
                events: states[i].events.remove(events[i]),
                ..states[i]
            }),
        states.last().processed == if start.processed + acted_on(
            events,
            states,
            events.len() as int,
        ) <= u64::MAX {
            start.processed + acted_on(events, states, events.len() as int)
        } else {
            u64::MAX as int
        },
        !is_void(states[events.len() - 1], events.last()),
{
    let first = start.begun(policy);
    let n = events.len() as int;
    lemma_last_is_end(start, policy, events, states);
    sound::law_beginning_keeps_soundness(start, policy);
    assert forall|i: int, j: int| 0 <= i < j < events.len() implies (
    #[trigger] events[i]).before(#[trigger] events[j]) by {
        lemma_in_order(first, events, states, i, j);
    }
    assert forall|i: int, e: Event|
        0 <= i < states.len() && #[trigger] states[i].events.count(e) > 0 && e.before(
            end_of(start),
        ) implies exists|j: int| i <= j < events.len() && #[trigger] events[j] == e by {
        let j = lemma_due_comes_up(first, events, states, i, e);
        assert(events[j] == e);
    }
    assert forall|e: Event| #[trigger] start.events.count(e) > 0 && e.time
        <= start.end() implies exists|j: int|
        0 <= j < events.len() && #[trigger] events[j] == e by {
        assert(states[0].events.count(e) > 0);
        let j = lemma_due_comes_up(first, events, states, 0, e);
        assert(events[j] == e);
    }
    assert forall|i: int|
        0 <= i < events.len() && is_void(states[i], #[trigger] events[i]) implies states[i + 1]
        == (Sim {
        now: events[i].time,
        events: states[i].events.remove(events[i]),
        ..states[i]
    }) by {
        let e = events[i];
        lemma_step(states[i], e, states[i + 1]);
    }
    lemma_counted(first, events, states, n);
    let e = events[n - 1];
    lemma_step(states[n - 1], e, states[n]);
}

} // verus!

//! Runs that start alike go alike: what comes of a simulation follows from its
//! first state and the algorithm.

use crate::arith;
use crate::drive;
use crate::event::{Event, EventKind};
use crate::ids::{DeviceId, JobId};
use crate::job::Job;
use crate::scheduler::{Action, ReevaluationPolicy, ReevaluationTrigger, Scheduler, Sight};
use crate::schedulers::edfvd;
use crate::schedulers::tables;
use crate::schedulers::{
    CpEdfScheduler, EdfScheduler, EdfVdScheduler, FederatedScheduler, FixedPriorityScheduler,
    GPreemptScheduler, GangScheduler, GlobalEdfScheduler, GpuPreemptivePriorityScheduler,
    HeftScheduler, LlfScheduler, MatchScheduler, RtgpuScheduler, XSchedScheduler,
};
use crate::sim;
use crate::sim::Sim;
use crate::sound;
use crate::task::{CriticalityLevel, Task};
use vstd::prelude::*;

verus! {

/// Whether schedulers of an algorithm that know the same give the same answers
/// to the same questions, and know the same afterwards.
pub open spec fn determined<S: Scheduler>() -> bool {
    &&& forall|a: S, b: S, p: ReevaluationPolicy, q: ReevaluationPolicy|
        a.alike(&b) && #[trigger] a.wants(p) && #[trigger] b.wants(q) ==> p == q
    &&& forall|
        a: S,
        b: S,
        job: Job,
        task: Task,
        view: Sight,
        x: Seq<Action>,
        y: Seq<Action>,
        m: S,
        n: S,
    |
        a.alike(&b) && #[trigger] a.answers_arrival(&job, &task, view, x, &m)
            && #[trigger] b.answers_arrival(&job, &task, view, y, &n) ==> x == y && m.alike(&n)
    &&& forall|
        a: S,
        b: S,
        job: Job,
        d: DeviceId,
        view: Sight,
        x: Seq<Action>,
        y: Seq<Action>,
        m: S,
        n: S,
    |
        a.alike(&b) && #[trigger] a.answers_completion(&job, d, view, x, &m)
            && #[trigger] b.answers_completion(&job, d, view, y, &n) ==> x == y && m.alike(&n)
    &&& forall|
        a: S,
        b: S,
        d: DeviceId,
        job: Job,
        view: Sight,
        x: Seq<Action>,
        y: Seq<Action>,
        m: S,
        n: S,
    |
        a.alike(&b) && #[trigger] a.answers_point(d, &job, view, x, &m)
            && #[trigger] b.answers_point(d, &job, view, y, &n) ==> x == y && m.alike(&n)
    &&& forall|
        a: S,
        b: S,
        level: CriticalityLevel,
        job: Job,
        view: Sight,
        x: Seq<Action>,
        y: Seq<Action>,
        m: S,
        n: S,
    |
        a.alike(&b) && #[trigger] a.answers_change(level, &job, view, x, &m)
            && #[trigger] b.answers_change(level, &job, view, y, &n) ==> x == y && m.alike(&n)
    &&& forall|a: S, b: S, d: DeviceId, view: Sight, x: Seq<Action>, y: Seq<Action>, m: S, n: S|
        a.alike(&b) && #[trigger] a.answers_idle(d, view, x, &m) && #[trigger] b.answers_idle(
            d,
            view,
            y,
            &n,
        ) ==> x == y && m.alike(&n)
    &&& forall|
        a: S,
        b: S,
        trigger: ReevaluationTrigger,
        view: Sight,
        x: Seq<Action>,
        y: Seq<Action>,
        m: S,
        n: S,
    |
        a.alike(&b) && #[trigger] a.answers_reevaluation(trigger, view, x, &m)
            && #[trigger] b.answers_reevaluation(trigger, view, y, &n) ==> x == y && m.alike(&n)
}

proof fn lemma_idle_devices_agree<S: Scheduler>(
    s: Sim,
    n: int,
    a: S,
    asked: Seq<Seq<Action>>,
    next_a: S,
    b: S,
    other: Seq<Seq<Action>>,
    next_b: S,
)
    requires
        determined::<S>(),
        a.alike(&b),
        drive::about_idle_devices(s, n, a, asked, next_a),
        drive::about_idle_devices(s, n, b, other, next_b),
    ensures
        s.polled(asked, n) == s.polled(other, n),
        next_a.alike(&next_b),
    decreases n,
{
    if n > 0 {
        let before = s.polled(asked, n - 1);
        let also = s.polled(other, n - 1);
        let d = DeviceId((n - 1) as u32);
        let mid_a = if before.running[n - 1] is None {
            choose|mid: S|
                drive::about_idle_devices(s, n - 1, a, asked, mid) && #[trigger] drive::about_idle(
                    before,
                    d,
                    mid,
                    sim::answer(asked, n),
                    next_a,
                )
        } else {
            next_a
        };
        let mid_b = if also.running[n - 1] is None {
            choose|mid: S|
                drive::about_idle_devices(s, n - 1, b, other, mid) && #[trigger] drive::about_idle(
                    also,
                    d,
                    mid,
                    sim::answer(other, n),
                    next_b,
                )
        } else {
            next_b
        };
        lemma_idle_devices_agree(s, n - 1, a, asked, mid_a, b, other, mid_b);
    }
}

proof fn lemma_switches_agree<S: Scheduler>(
    s: Sim,
    id: JobId,
    a: S,
    asked: Seq<Seq<Action>>,
    next_a: S,
    b: S,
    other: Seq<Seq<Action>>,
    next_b: S,
)
    requires
        determined::<S>(),
        a.alike(&b),
        drive::about_switch(s, id, a, asked, next_a),
        drive::about_switch(s, id, b, other, next_b),
    ensures
        s.switched(asked) == s.switched(other),
        next_a.alike(&next_b),
{
    let high = Sim { level: CriticalityLevel::Hi, ..s };
    let told_a = high.applied_all(sim::answer(asked, 0), None);
    let told_b = high.applied_all(sim::answer(other, 0), None);
    let n = s.devices.len() as int;
    let mid_a = choose|mid: S| #[trigger]
        drive::about_change(high, id, a, sim::answer(asked, 0), mid) && drive::about_idle_devices(
            told_a.lo_dropped(told_a.jobs.len() as int),
            n,
            mid,
            asked,
            next_a,
        );
    let mid_b = choose|mid: S| #[trigger]
        drive::about_change(high, id, b, sim::answer(other, 0), mid) && drive::about_idle_devices(
            told_b.lo_dropped(told_b.jobs.len() as int),
            n,
            mid,
            other,
            next_b,
        );
    assert(sim::answer(asked, 0) == sim::answer(other, 0) && mid_a.alike(&mid_b));
    lemma_idle_devices_agree(
        told_a.lo_dropped(told_a.jobs.len() as int),
        n,
        mid_a,
        asked,
        next_a,
        mid_b,
        other,
        next_b,
    );
}

proof fn lemma_events_agree<S: Scheduler>(
    s: Sim,
    event: Event,
    a: S,
    asked: Seq<Seq<Action>>,
    next_a: S,
    b: S,
    other: Seq<Seq<Action>>,
    next_b: S,
)
    requires
        determined::<S>(),
        a.alike(&b),
        drive::consulted(s, event, a, asked, next_a),
        drive::consulted(s, event, b, other, next_b),
    ensures
        s.attended(event, asked) == s.attended(event, other),
        next_a.alike(&next_b),
{
    reveal(Sim::handled);
    let at = Sim { now: event.time, ..s };
    if !at.is_stale(event.kind) {
        let t = Sim { processed: arith::sat_add(at.processed, 1), ..at };
        match event.kind {
            EventKind::BudgetOverrun { job_id, .. } => {
                if t.level is Lo && t.job(job_id) is Some {
                    lemma_switches_agree(t, job_id, a, asked, next_a, b, other, next_b);
                }
            },
            _ => {},
        }
    }
}

proof fn lemma_next_is_one(s: Sim, e: Event, f: Event)
    requires
        sound::timely(s),
        s.is_next(e),
        s.is_next(f),
    ensures
        e == f,
{
    assert(!f.before(e) && !e.before(f));
}

proof fn lemma_steps_agree<S: Scheduler>(
    s: Sim,
    a: S,
    e: Event,
    after_a: Sim,
    next_a: S,
    b: S,
    f: Event,
    after_b: Sim,
    next_b: S,
)
    requires
        determined::<S>(),
        sound::timely(s),
        a.alike(&b),
        drive::steps_by(s, a, e, after_a, next_a),
        drive::steps_by(s, b, f, after_b, next_b),
    ensures
        e == f,
        after_a == after_b,
        next_a.alike(&next_b),
{
    lemma_next_is_one(s, e, f);
    let taken = Sim { events: s.events.remove(e), ..s };
    let asked = choose|answers: Seq<Seq<Action>>|
        after_a == #[trigger] s.processed_event(e, answers) && drive::consulted(
            taken,
            e,
            a,
            answers,
            next_a,
        );
    let other = choose|answers: Seq<Seq<Action>>|
        after_b == #[trigger] s.processed_event(e, answers) && drive::consulted(
            taken,
            e,
            b,
            answers,
            next_b,
        );
    lemma_events_agree(taken, e, a, asked, next_a, b, other, next_b);
}

proof fn lemma_prefixes_agree<S: Scheduler>(
    first: Sim,
    events_a: Seq<Event>,
    states_a: Seq<Sim>,
    minds_a: Seq<S>,
    events_b: Seq<Event>,
    states_b: Seq<Sim>,
    minds_b: Seq<S>,
    n: int,
)
    requires
        determined::<S>(),
        sound::sound(first),
        drive::is_run_by(first, events_a, states_a, minds_a),
        drive::is_run_by(first, events_b, states_b, minds_b),
        minds_a[0].alike(&minds_b[0]),
        0 <= n <= events_a.len(),
        n <= events_b.len(),
    ensures
        states_a[n] == states_b[n],
        minds_a[n].alike(&minds_b[n]),
        n > 0 ==> events_a[n - 1] == events_b[n - 1],
    decreases n,
{
    if n > 0 {
        lemma_prefixes_agree(
            first,
            events_a,
            states_a,
            minds_a,
            events_b,
            states_b,
            minds_b,
            n - 1,
        );
        sound::law_runs_keep_soundness(first, events_a, states_a, n - 1);
        let e = events_a[n - 1];
        let f = events_b[n - 1];
        lemma_steps_agree(
            states_a[n - 1],
            minds_a[n - 1],
            e,
            states_a[n],
            minds_a[n],
            minds_b[n - 1],
            f,
            states_b[n],
            minds_b[n],
        );
    }
}

proof fn lemma_goes_on(s: Sim, e: Event)
    requires
        s.is_next(e),
    ensures
        s.events.len() > 0,
{
    broadcast use vstd::multiset::group_multiset_properties;

    assert(s.events.contains(e));
}

/// Two runs from one sound state, driven by schedulers of one algorithm that
/// know the same, are the same: the same events come up in the same order, and
/// every state is the same.
pub proof fn law_runs_agree<S: Scheduler>(
    first: Sim,
    events_a: Seq<Event>,
    states_a: Seq<Sim>,
    minds_a: Seq<S>,
    events_b: Seq<Event>,
    states_b: Seq<Sim>,
    minds_b: Seq<S>,
)
    requires
        determined::<S>(),
        sound::sound(first),
        drive::is_run_by(first, events_a, states_a, minds_a),
        drive::is_run_by(first, events_b, states_b, minds_b),
        minds_a[0].alike(&minds_b[0]),
    ensures
        events_a == events_b,
        states_a == states_b,
        minds_a.last().alike(&minds_b.last()),
{
    let n = if events_a.len() <= events_b.len() {
        events_a.len() as int
    } else {
        events_b.len() as int
    };
    lemma_prefixes_agree(first, events_a, states_a, minds_a, events_b, states_b, minds_b, n);
    if n < events_b.len() {
        lemma_goes_on(states_b[n], events_b[n]);
    }
    if n < events_a.len() {
        lemma_goes_on(states_a[n], events_a[n]);
    }
    assert forall|i: int| 0 <= i < events_a.len() implies events_a[i] == events_b[i] by {
        lemma_prefixes_agree(
            first,
            events_a,
            states_a,
            minds_a,
            events_b,
            states_b,
            minds_b,
            i + 1,
        );
    }
    assert forall|i: int| 0 <= i < states_a.len() implies states_a[i] == states_b[i] by {
        lemma_prefixes_agree(first, events_a, states_a, minds_a, events_b, states_b, minds_b, i);
    }
}

/// What a scheduler makes of a sound state follows from the state and from
/// what the scheduler knows.
pub proof fn law_outcomes_agree<S: Scheduler>(
    first: Sim,
    a: S,
    next_a: S,
    last_a: Sim,
    b: S,
    next_b: S,
    last_b: Sim,
)
    requires
        determined::<S>(),
        sound::sound(first),
        a.alike(&b),
        drive::drives(a, first, next_a, last_a),
        drive::drives(b, first, next_b, last_b),
    ensures
        last_a == last_b,
        next_a.alike(&next_b),
{
    let (p, events_a, states_a, minds_a) = choose|
        policy: ReevaluationPolicy,
        events: Seq<Event>,
        states: Seq<Sim>,
        minds: Seq<S>,
    |
        {
            &&& a.wants(policy)
            &&& #[trigger] drive::is_run_by(first.begun(policy), events, states, minds)
            &&& minds[0] == a
            &&& minds.last() == next_a
            &&& states.last() == last_a
        };
    let (q, events_b, states_b, minds_b) = choose|
        policy: ReevaluationPolicy,
        events: Seq<Event>,
        states: Seq<Sim>,
        minds: Seq<S>,
    |
        {
            &&& b.wants(policy)
            &&& #[trigger] drive::is_run_by(first.begun(policy), events, states, minds)
            &&& minds[0] == b
            &&& minds.last() == next_b
            &&& states.last() == last_b
        };
    assert(p == q);
    sound::law_beginning_keeps_soundness(first, p);
    law_runs_agree(
        first.begun(p),
        events_a,
        states_a,
        minds_a,
        events_b,
        states_b,
        minds_b,
    );
}

proof fn lemma_ascending_is_one(a: Seq<u64>, b: Seq<u64>)
    requires
        tables::ascending(a),
        tables::ascending(b),
        forall|x: u64| #[trigger] a.contains(x) <==> b.contains(x),
    ensures
        a == b,
    decreases a.len(),
{
    if a.len() == 0 {
        if b.len() > 0 {
            assert(b.contains(b[0]) && a.contains(b[0]));
        }
    } else {
        assert(a.contains(a[a.len() - 1]));
        assert(b.contains(a.last()));
        let i = choose|i: int| 0 <= i < b.len() && b[i] == a.last();
        assert(b.contains(b[b.len() - 1]));
        assert(a.contains(b.last()));
        let j = choose|j: int| 0 <= j < a.len() && a[j] == b.last();
        assert(a.last() == b.last());
        let ra = a.drop_last();
        let rb = b.drop_last();
        assert forall|x: u64| #[trigger] ra.contains(x) <==> rb.contains(x) by {
            if ra.contains(x) {
                let k = choose|k: int| 0 <= k < ra.len() && ra[k] == x;
                assert(a[k] == x);
                assert(a.contains(x));
                assert(b.contains(x));
                let l = choose|l: int| 0 <= l < b.len() && b[l] == x;
                assert(rb[l] == x);
            }
            if rb.contains(x) {
                let k = choose|k: int| 0 <= k < rb.len() && rb[k] == x;
                assert(b[k] == x);
                assert(b.contains(x));
                assert(a.contains(x));
                let l = choose|l: int| 0 <= l < a.len() && a[l] == x;
                assert(ra[l] == x);
            }
        }
        lemma_ascending_is_one(ra, rb);
        assert(a =~= ra.push(a.last()));
        assert(b =~= rb.push(b.last()));
    }
}

proof fn lemma_drops_are_one(x: Seq<Action>, y: Seq<Action>, view: Sight)
    requires
        edfvd::drops_all_lo(x, view),
        edfvd::drops_all_lo(y, view),
    ensures
        x == y,
{
    let i = choose|ids: Seq<u64>| #[trigger]
        tables::ascending(ids) && (forall|id: u64| #[trigger]
            ids.contains(id) <==> edfvd::shows_lo(view, id)) && x == if ids.len() == 0 {
            seq![Action::NoOp]
        } else {
            edfvd::drops_of(ids)
        };
    let j = choose|ids: Seq<u64>| #[trigger]
        tables::ascending(ids) && (forall|id: u64| #[trigger]
            ids.contains(id) <==> edfvd::shows_lo(view, id)) && y == if ids.len() == 0 {
            seq![Action::NoOp]
        } else {
            edfvd::drops_of(ids)
        };
    assert forall|id: u64| #[trigger] i.contains(id) <==> j.contains(id) by {
        assert(i.contains(id) <==> edfvd::shows_lo(view, id));
    }
    lemma_ascending_is_one(i, j);
}

/// Every algorithm of the library is determined.
pub proof fn law_algorithms_are_determined()
    ensures
        determined::<FixedPriorityScheduler>(),
        determined::<EdfScheduler>(),
        determined::<EdfVdScheduler>(),
        determined::<LlfScheduler>(),
        determined::<HeftScheduler>(),
        determined::<CpEdfScheduler>(),
        determined::<FederatedScheduler>(),
        determined::<GlobalEdfScheduler>(),
        determined::<GangScheduler>(),
        determined::<XSchedScheduler>(),
        determined::<GPreemptScheduler>(),
        determined::<RtgpuScheduler>(),
        determined::<MatchScheduler>(),
        determined::<GpuPreemptivePriorityScheduler>(),
{
    assert(determined::<FixedPriorityScheduler>());
    assert(determined::<EdfScheduler>());
    assert(determined::<EdfVdScheduler>()) by {
        assert forall|view: Sight, x: Seq<Action>, y: Seq<Action>| #[trigger]
            edfvd::drops_all_lo(x, view) && #[trigger] edfvd::drops_all_lo(y, view) implies x
            == y by {
            lemma_drops_are_one(x, y, view);
        }
    }
    assert(determined::<LlfScheduler>());
    assert(determined::<HeftScheduler>());
    assert(determined::<CpEdfScheduler>());
    assert(determined::<FederatedScheduler>());
    assert(determined::<GlobalEdfScheduler>());
    assert(determined::<GangScheduler>());
    assert(determined::<XSchedScheduler>());
    assert(determined::<GPreemptScheduler>());
    assert(determined::<RtgpuScheduler>());
    assert(determined::<MatchScheduler>());
    assert(determined::<GpuPreemptivePriorityScheduler>());
}

} // verus!

//! Runs that a scheduler drives: what it is asked in which state, and what it
//! answers.

use crate::arith;
use crate::device_manager;
use crate::event::{Event, EventKind};
use crate::ids::{DeviceId, JobId};
use crate::scheduler::{Action, ReevaluationPolicy, ReevaluationTrigger, Scheduler, Sight};
use crate::sim;
use crate::sim::Sim;
use crate::task::CriticalityLevel;
use vstd::prelude::*;

verus! {

/// What a scheduler sees of a state.
pub open spec fn sight(s: Sim) -> Sight {
    Sight {
        now: s.now,
        devices: s.devices,
        running_jobs: Seq::new(
            s.devices.len(),
            |i: int|
                (
                    s.devices[i].id,
                    match s.running[i] {
                        Some(id) => device_manager::running_info(s.jobs, s.tasks, s.now, id),
                        None => None,
                    },
                ),
        ),
        ready_queues: Seq::new(
            s.devices.len(),
            |i: int|
                (s.devices[i].id, device_manager::queued_infos(s.jobs, s.tasks, s.queues[i])),
        ),
        criticality_level: s.level,
    }
}

/// Whether a scheduler that sees a state answers about a job that has arrived.
pub open spec fn about_arrival<S: Scheduler>(
    s: Sim,
    id: JobId,
    mind: S,
    actions: Seq<Action>,
    next: S,
) -> bool {
    mind.answers_arrival(&s.job(id)->0, &s.task_of(id), sight(s), actions, &next)
}

/// Whether a scheduler that sees a state answers about a job that has
/// completed on a device.
pub open spec fn about_completion<S: Scheduler>(
    s: Sim,
    id: JobId,
    d: DeviceId,
    mind: S,
    actions: Seq<Action>,
    next: S,
) -> bool {
    mind.answers_completion(&s.job(id)->0, d, sight(s), actions, &next)
}

/// Whether a scheduler that sees a state answers about a job at a preemption
/// point of a device.
pub open spec fn about_point<S: Scheduler>(
    s: Sim,
    id: JobId,
    d: DeviceId,
    mind: S,
    actions: Seq<Action>,
    next: S,
) -> bool {
    mind.answers_point(d, &s.job(id)->0, sight(s), actions, &next)
}

/// Whether a scheduler that sees a state answers to a rise of the criticality
/// level that a job caused.
pub open spec fn about_change<S: Scheduler>(
    s: Sim,
    id: JobId,
    mind: S,
    actions: Seq<Action>,
    next: S,
) -> bool {
    mind.answers_change(s.level, &s.job(id)->0, sight(s), actions, &next)
}

/// Whether a scheduler that sees a state answers about an idle device.
pub open spec fn about_idle<S: Scheduler>(
    s: Sim,
    d: DeviceId,
    mind: S,
    actions: Seq<Action>,
    next: S,
) -> bool {
    mind.answers_idle(d, sight(s), actions, &next)
}

/// Whether a scheduler that sees a state answers at a reevaluation.
pub open spec fn about_reevaluation<S: Scheduler>(
    s: Sim,
    trigger: ReevaluationTrigger,
    mind: S,
    actions: Seq<Action>,
    next: S,
) -> bool {
    mind.answers_reevaluation(trigger, sight(s), actions, &next)
}

/// Whether a scheduler answers about every idle device among the first `n`.
pub open spec fn about_idle_devices<S: Scheduler>(
    s: Sim,
    n: int,
    mind: S,
    answers: Seq<Seq<Action>>,
    next: S,
) -> bool
    decreases n,
{
    if n <= 0 {
        next == mind
    } else {
        let before = s.polled(answers, n - 1);
        if before.running[n - 1] is None {
            exists|mid: S|
                about_idle_devices(s, n - 1, mind, answers, mid) && #[trigger] about_idle(
                    before,
                    DeviceId((n - 1) as u32),
                    mid,
                    sim::answer(answers, n),
                    next,
                )
        } else {
            about_idle_devices(s, n - 1, mind, answers, next)
        }
    }
}

/// Whether a scheduler answers when the criticality level rises: to the rise,
/// and then about the devices that are idle once low-criticality jobs are
/// gone.
pub open spec fn about_switch<S: Scheduler>(
    s: Sim,
    id: JobId,
    mind: S,
    answers: Seq<Seq<Action>>,
    next: S,
) -> bool {
    let high = Sim { level: CriticalityLevel::Hi, ..s };
    let told = high.applied_all(sim::answer(answers, 0), None);
    exists|mid: S| #[trigger]
        about_change(high, id, mind, sim::answer(answers, 0), mid) && about_idle_devices(
            told.lo_dropped(told.jobs.len() as int),
            s.devices.len() as int,
            mid,
            answers,
            next,
        )
}

/// Whether answers are those of a scheduler that is asked while an event is
/// handled; `next` is the scheduler after that.
pub open spec fn answered<S: Scheduler>(
    s: Sim,
    kind: EventKind,
    mind: S,
    answers: Seq<Seq<Action>>,
    next: S,
) -> bool {
    match kind {
        EventKind::TaskArrival { job_id, .. } => if s.arrives(job_id) {
            about_arrival(s.arriving(job_id), job_id, mind, sim::answer(answers, 0), next)
        } else {
            next == mind
        },
        EventKind::JobComplete { job_id, device_id, .. } => if s.device_of(job_id) == Some(
            device_id,
        ) {
            about_completion(
                s.completing(job_id, device_id),
                job_id,
                device_id,
                mind,
                sim::answer(answers, 0),
                next,
            )
        } else {
            next == mind
        },
        EventKind::PreemptionPoint { device_id, job_id, .. } => if s.device_of(job_id) == Some(
            device_id,
        ) {
            about_point(s, job_id, device_id, mind, sim::answer(answers, 0), next)
        } else {
            next == mind
        },
        EventKind::DeadlineCheck { job_id, .. } => match (s.job(job_id), s.device_of(job_id)) {
            (Some(job), Some(d)) => if job.missed_at(s.now) {
                about_idle(s.missing(job_id), d, mind, sim::answer(answers, 0), next)
            } else {
                next == mind
            },
            _ => next == mind,
        },
        EventKind::BudgetOverrun { job_id, .. } => if s.level is Lo && s.job(job_id) is Some {
            about_switch(s, job_id, mind, answers, next)
        } else {
            next == mind
        },
        EventKind::SchedulerReevaluation { generation, trigger } => if generation
            == s.generation {
            about_reevaluation(s, trigger, mind, sim::answer(answers, 0), next)
        } else {
            next == mind
        },
        _ => next == mind,
    }
}

/// Whether answers are those of a scheduler that is asked when an event comes
/// up. It is not asked about stale events.
pub open spec fn consulted<S: Scheduler>(
    s: Sim,
    event: Event,
    mind: S,
    answers: Seq<Seq<Action>>,
    next: S,
) -> bool {
    let at = Sim { now: event.time, ..s };
    if at.is_stale(event.kind) {
        next == mind
    } else {
        answered(
            Sim { processed: arith::sat_add(at.processed, 1), ..at },
            event.kind,
            mind,
            answers,
            next,
        )
    }
}

/// Whether a state follows from another one by processing its next event with
/// the answers of a scheduler.
pub open spec fn steps_by<S: Scheduler>(
    before: Sim,
    mind: S,
    event: Event,
    after: Sim,
    next: S,
) -> bool {
    &&& before.is_next(event)
    &&& exists|answers: Seq<Seq<Action>>|
        after == #[trigger] before.processed_event(event, answers) && consulted(
            Sim { events: before.events.remove(event), ..before },
            event,
            mind,
            answers,
            next,
        )
}

/// Whether states and events are a run that a scheduler drives; `minds` is the
/// scheduler in each of the states.
pub open spec fn is_run_by<S: Scheduler>(
    first: Sim,
    events: Seq<Event>,
    states: Seq<Sim>,
    minds: Seq<S>,
) -> bool {
    &&& sim::is_run(first, events, states)
    &&& minds.len() == states.len()
    &&& forall|i: int|
        0 <= i < events.len() ==> steps_by(
            states[i],
            minds[i],
            #[trigger] events[i],
            states[i + 1],
            minds[i + 1],
        )
}

/// Whether a scheduler can take a simulation from one state to another.
pub open spec fn drives<S: Scheduler>(mind: S, first: Sim, next: S, last: Sim) -> bool {
    exists|
        policy: ReevaluationPolicy,
        events: Seq<Event>,
        states: Seq<Sim>,
        minds: Seq<S>,
    |
        {
            &&& mind.wants(policy)
            &&& #[trigger] is_run_by(first.begun(policy), events, states, minds)
            &&& minds[0] == mind
            &&& minds.last() == next
            &&& states.last() == last
        }
}

/// More answers change nothing about the first ones.
pub proof fn lemma_idle_devices<S: Scheduler>(
    s: Sim,
    n: int,
    mind: S,
    answers: Seq<Seq<Action>>,
    more: Seq<Seq<Action>>,
    next: S,
)
    requires
        n < answers.len() <= more.len(),
        more.take(answers.len() as int) == answers,
        about_idle_devices(s, n, mind, answers, next),
    ensures
        about_idle_devices(s, n, mind, more, next),
    decreases n,
{
    if n > 0 {
        sim::lemma_polled(s, answers, more, n - 1);
        assert(more.take(answers.len() as int)[n] == more[n]);
        let before = s.polled(answers, n - 1);
        if before.running[n - 1] is None {
            let d = DeviceId((n - 1) as u32);
            let given = sim::answer(answers, n);
            let mid = choose|mid: S|
                about_idle_devices(s, n - 1, mind, answers, mid) && #[trigger] about_idle(
                    before,
                    d,
                    mid,
                    given,
                    next,
                );
            lemma_idle_devices(s, n - 1, mind, answers, more, mid);
            assert(about_idle(s.polled(more, n - 1), d, mid, sim::answer(more, n), next));
        } else {
            lemma_idle_devices(s, n - 1, mind, answers, more, next);
        }
    }
}

} // verus!

//! When a scheduler is asked, about what, and what it sees.

use crate::device_manager;
use crate::device_manager::QueueEntry;
use crate::drive;
use crate::event::{Event, EventKind};
use crate::ids::{DeviceId, JobId, TaskId};
use crate::job::{Job, JobState};
use crate::motion;
use crate::motion::{has_job, is_laid_out, runs_on, the_job, the_task};
use crate::occurrence;
use crate::scheduler::{Action, QueuedJobInfo, RunningJobInfo, Scheduler};
use crate::sim;
use crate::sim::{Sim, Tally};
use crate::task::CriticalityLevel;
use crate::traffic::capped;
use vstd::prelude::*;

verus! {

/// Whether a scheduler is shown a running job as it is: with its task's
/// criticality, and the time that it has executed since it started.
pub open spec fn shows_running(s: Sim, id: JobId, r: RunningJobInfo) -> bool {
    let job = the_job(s, id);
    &&& r.job_id == job.id
    &&& r.task_id == job.task_id
    &&& r.priority == job.effective_priority
    &&& r.release_time == job.release_time
    &&& r.absolute_deadline == job.absolute_deadline
    &&& r.criticality == the_task(s, id).criticality
    &&& r.elapsed_ns == motion::ran(s, id)
}

/// Whether a scheduler is shown a waiting job as it is, with its task's
/// criticality.
pub open spec fn shows_waiting(s: Sim, id: JobId, q: QueuedJobInfo) -> bool {
    let job = the_job(s, id);
    &&& q.job_id == job.id
    &&& q.task_id == job.task_id
    &&& q.priority == job.effective_priority
    &&& q.release_time == job.release_time
    &&& q.absolute_deadline == job.absolute_deadline
    &&& q.criticality == the_task(s, id).criticality
}

proof fn lemma_queue_is_shown(s: Sim, queue: Seq<QueueEntry>, k: int)
    requires
        forall|j: int| 0 <= j < queue.len() ==> has_job(s, (#[trigger] queue[j]).job_id),
    ensures
        device_manager::queued_infos(s.jobs, s.tasks, queue).len() == queue.len(),
        0 <= k < queue.len() ==> shows_waiting(
            s,
            queue[k].job_id,
            device_manager::queued_infos(s.jobs, s.tasks, queue)[k],
        ),
    decreases queue.len(),
{
    if queue.len() > 0 {
        let rest = queue.drop_last();
        assert forall|j: int| 0 <= j < rest.len() implies has_job(
            s,
            (#[trigger] rest[j]).job_id,
        ) by {
            assert(has_job(s, queue[j].job_id));
        }
        lemma_queue_is_shown(s, rest, k);
        assert(has_job(s, queue[queue.len() - 1].job_id));
        if 0 <= k < rest.len() {
            assert(rest[k] == queue[k]);
        }
    }
}

/// A scheduler sees the time, the devices and the criticality level, and for
/// each device the job that runs there and those that wait, in the order of
/// the queue.
pub proof fn law_schedulers_see_the_state(s: Sim, i: int, k: int)
    requires
        is_laid_out(s),
        0 <= i < s.devices.len(),
        s.running[i] matches Some(id) ==> has_job(s, id),
        forall|j: int| 0 <= j < s.queues[i].len() ==> has_job(s, (#[trigger] s.queues[i][j]).job_id),
    ensures
        drive::sight(s).now == s.now,
        drive::sight(s).devices == s.devices,
        drive::sight(s).criticality_level == s.level,
        drive::sight(s).running_jobs.len() == s.devices.len(),
        drive::sight(s).ready_queues.len() == s.devices.len(),
        drive::sight(s).running_jobs[i].0 == s.devices[i].id,
        match s.running[i] {
            Some(id) => drive::sight(s).running_jobs[i].1 matches Some(r) && shows_running(s, id, r),
            None => drive::sight(s).running_jobs[i].1 is None,
        },
        drive::sight(s).ready_queues[i].0 == s.devices[i].id,
        drive::sight(s).ready_queues[i].1.len() == s.queues[i].len(),
        0 <= k < s.queues[i].len() ==> shows_waiting(
            s,
            s.queues[i][k].job_id,
            drive::sight(s).ready_queues[i].1[k],
        ),
{
    lemma_queue_is_shown(s, s.queues[i], k);
}

/// What was answered first.
pub open spec fn first_answer(answers: Seq<Seq<Action>>) -> Seq<Action> {
    if answers.len() > 0 {
        answers[0]
    } else {
        Seq::empty()
    }
}

/// When a new job arrives, the scheduler is asked about it, and sees the state
/// in which it is counted and the next job of its task is known. It is not
/// asked about a job that is no longer new.
pub proof fn law_asked_on_arrival<S: Scheduler>(
    s: Sim,
    task_id: TaskId,
    id: JobId,
    mind: S,
    answers: Seq<Seq<Action>>,
    after: S,
) -> (mid: (Sim, Sim))
    requires
        drive::answered(
            s,
            EventKind::TaskArrival { task_id, job_id: id },
            mind,
            answers,
            after,
        ),
    ensures
        ({
            let (counted, next) = mid;
            let own = the_job(s, id).task_id;
            let arrives = has_job(s, id) && own.0 < s.tasks.len() && the_job(s, id).state
                is Released;
            let period = occurrence::period_of(s, own);
            &&& !arrives ==> after == mind
            &&& arrives ==> {
                &&& counted == (Sim {
                    tally: Tally { total: capped(s.tally.total + 1) as u64, ..s.tally },
                    ..s
                })
                &&& period > 0 && capped(s.now + period) < s.duration ==> occurrence::releases(
                    counted,
                    next,
                    own,
                    s.now + period,
                    None,
                )
                &&& !(period > 0 && capped(s.now + period) < s.duration) ==> next == counted
                &&& mind.answers_arrival(
                    &the_job(s, id),
                    &the_task(s, id),
                    drive::sight(next),
                    first_answer(answers),
                    &after,
                )
            }
        }),
{
    let (counted, next, answered) = occurrence::law_arrivals(s, task_id, id, answers);
    let own = the_job(s, id).task_id;
    if has_job(s, id) && own.0 < s.tasks.len() && the_job(s, id).state is Released {
        let period = occurrence::period_of(s, own);
        let arriving = s.arriving(id);
        if period > 0 && capped(s.now + period) < s.duration {
            occurrence::lemma_releases(counted, own, (s.now + period) as u64, None);
        }
        assert(arriving.jobs[id.0 as int] == s.jobs[id.0 as int]);
        assert(arriving.tasks == s.tasks);
        (counted, arriving)
    } else {
        (counted, next)
    }
}

/// When a job completes, the scheduler is asked about it and its device, and
/// sees the state in which the job is done and its data handed on.
pub proof fn law_asked_on_completion<S: Scheduler>(
    s: Sim,
    id: JobId,
    d: DeviceId,
    version: u64,
    mind: S,
    answers: Seq<Seq<Action>>,
    after: S,
) -> (handed: Sim)
    requires
        drive::answered(
            s,
            EventKind::JobComplete { job_id: id, expected_version: version, device_id: d },
            mind,
            answers,
            after,
        ),
    ensures
        !runs_on(s, id, d) ==> after == mind,
        runs_on(s, id, d) ==> handed == s.completing(id, d) && mind.answers_completion(
            &the_job(handed, id),
            d,
            drive::sight(handed),
            first_answer(answers),
            &after,
        ),
{
    motion::lemma_runs_on(s, id, d);
    let handed = s.completing(id, d);
    if runs_on(s, id, d) {
        lemma_completing_keeps(s, id, d);
    }
    handed
}

proof fn lemma_completing_keeps(s: Sim, id: JobId, d: DeviceId)
    requires
        runs_on(s, id, d),
    ensures
        has_job(s.completing(id, d), id),
{
    let stopped = s.paused(id, d);
    let job = stopped.job(id)->0;
    let done_job = Job {
        executed_ns: match job.actual_exec_ns {
            Some(ns) => ns,
            None => job.executed_ns,
        },
        ..sim::moved(job, JobState::Completed)
    };
    let record = crate::metrics::CompletionRecord {
        job_id: id,
        task_id: job.task_id,
        release_time: job.release_time,
        completion_time: s.now,
    };
    let done = Sim {
        tally: Tally {
            completed: crate::arith::sat_add(s.tally.completed, 1),
            completions: s.tally.completions.push(record),
            ..s.tally
        },
        ..stopped.with_job(id, done_job)
    };
    if let Some(p) = done.job(id)->0.dag_provenance {
        if p.dag_instance_id.0 < done.dags.len() {
            sim::lemma_handed_on_all(
                done,
                id,
                d,
                p,
                crate::dag_tracker::outgoing(
                    done.dags[p.dag_instance_id.0 as int].bytes,
                    p.node,
                ),
            );
        }
    }
}

/// At a preemption point the scheduler is asked about the running job and its
/// device, as they are.
pub proof fn law_asked_at_points<S: Scheduler>(
    s: Sim,
    id: JobId,
    d: DeviceId,
    version: u64,
    mind: S,
    answers: Seq<Seq<Action>>,
    after: S,
)
    requires
        drive::answered(
            s,
            EventKind::PreemptionPoint { device_id: d, job_id: id, expected_version: version },
            mind,
            answers,
            after,
        ),
    ensures
        !runs_on(s, id, d) ==> after == mind,
        runs_on(s, id, d) ==> mind.answers_point(
            d,
            &the_job(s, id),
            drive::sight(s),
            first_answer(answers),
            &after,
        ),
{
    motion::lemma_runs_on(s, id, d);
}

/// When a running job misses its deadline, the scheduler is asked about its
/// device, and sees the state in which the job has ended. It is not asked
/// where the job did not run, or the deadline is kept.
pub proof fn law_asked_on_misses<S: Scheduler>(
    s: Sim,
    id: JobId,
    version: u64,
    mind: S,
    answers: Seq<Seq<Action>>,
    after: S,
    d: DeviceId,
) -> (ended: Sim)
    requires
        is_laid_out(s),
        drive::answered(
            s,
            EventKind::DeadlineCheck { job_id: id, expected_version: version },
            mind,
            answers,
            after,
        ),
    ensures
        ({
            let state = the_job(s, id).state;
            let missed = has_job(s, id) && s.now > the_job(s, id).absolute_deadline && !(state
                is Completed || state is Dropped || state is DeadlineMissed);
            &&& missed && runs_on(s, id, d) ==> ended == s.missing(id) && mind.answers_idle(
                d,
                drive::sight(ended),
                first_answer(answers),
                &after,
            )
            &&& !missed || (forall|e: DeviceId| !#[trigger] runs_on(s, id, e)) ==> after == mind
        }),
{
    assert forall|e: DeviceId| #[trigger] runs_on(s, id, e) == (s.device_of(id) == Some(e)) by {
        motion::lemma_runs_on(s, id, e);
    }
    if s.device_of(id) is Some {
        assert(runs_on(s, id, s.device_of(id)->0));
    }
    s.missing(id)
}

/// When the criticality level rises, the scheduler is asked about that first,
/// and sees the new level.
pub proof fn law_asked_on_overruns<S: Scheduler>(
    s: Sim,
    id: JobId,
    version: u64,
    mind: S,
    answers: Seq<Seq<Action>>,
    after: S,
) -> (mid: S)
    requires
        drive::answered(
            s,
            EventKind::BudgetOverrun { job_id: id, expected_version: version },
            mind,
            answers,
            after,
        ),
    ensures
        !(s.level is Lo && has_job(s, id)) ==> after == mind,
        s.level is Lo && has_job(s, id) ==> mind.answers_change(
            CriticalityLevel::Hi,
            &the_job(s, id),
            drive::sight(Sim { level: CriticalityLevel::Hi, ..s }),
            first_answer(answers),
            &mid,
        ),
{
    let high = Sim { level: CriticalityLevel::Hi, ..s };
    let told = high.applied_all(sim::answer(answers, 0), None);
    choose|mid: S| #[trigger]
        drive::about_change(high, id, mind, sim::answer(answers, 0), mid)
            && drive::about_idle_devices(
            told.lo_dropped(told.jobs.len() as int),
            s.devices.len() as int,
            mid,
            answers,
            after,
        )
}

/// At a reevaluation of the current run the scheduler is asked to reevaluate;
/// it is not asked at one of an earlier run, nor at the end of a transfer, at
/// an arbitration or at the end of the simulation.
pub proof fn law_asked_to_reevaluate<S: Scheduler>(
    s: Sim,
    kind: EventKind,
    mind: S,
    answers: Seq<Seq<Action>>,
    after: S,
)
    requires
        drive::answered(s, kind, mind, answers, after),
    ensures
        kind matches EventKind::SchedulerReevaluation { generation, trigger } ==> if generation
            == s.generation {
            mind.answers_reevaluation(trigger, drive::sight(s), first_answer(answers), &after)
        } else {
            after == mind
        },
        kind is TransferComplete || kind is EdgeTransferComplete || kind is BusArbitration || kind
            is SimulationEnd ==> after == mind,
{
}

/// A scheduler is not asked about an event whose job has another version than
/// the event was meant for; about any other it is asked in the state whose
/// clock shows the time of the event.
pub proof fn law_asked_about_current_events<S: Scheduler>(
    s: Sim,
    event: Event,
    mind: S,
    answers: Seq<Seq<Action>>,
    after: S,
)
    requires
        drive::consulted(s, event, mind, answers, after),
    ensures
        ({
            let stale = occurrence::meant_for(event.kind) matches Some((id, version)) && has_job(
                s,
                id,
            ) && the_job(s, id).version != version;
            &&& stale ==> after == mind
            &&& !stale ==> drive::answered(
                Sim { now: event.time, processed: capped(s.processed + 1) as u64, ..s },
                event.kind,
                mind,
                answers,
                after,
            )
        }),
{
}

} // verus!

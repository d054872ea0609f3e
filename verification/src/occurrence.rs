//! What events do to a simulation, said of the states before and after.

use crate::arith;
use crate::dag::{DagInstanceId, DagProvenance, EdgeTransferId, SubTaskIdx};
use crate::dag_tracker;
use crate::event::{Event, EventKind};
use crate::ids::{BusId, DeviceId, JobId, TaskId};
use crate::job::{Job, JobState};
use crate::metrics::{CompletionRecord, MissRecord};
use crate::motion;
use crate::motion::{adds, can_run, has_job, interval_of, is_laid_out, runs_on, the_job, the_task};
use crate::scheduler::{Action, ReevaluationPolicy, ReevaluationTrigger};
use crate::search;
use crate::sim;
use crate::sim::{Sim, Tally};
use crate::task::{ArrivalModel, CriticalityLevel};
use crate::time::Nanos;
use crate::traffic;
use crate::traffic::capped;
use crate::transfer_manager::{
    ScheduledEvent, TransferId, TransferReason, TransferRequest, Transfers,
};
use vstd::prelude::*;

verus! {

/// Whether one more event is pending, with the next sequence number.
pub open spec fn pends(s: Sim, t: Sim, time: int, kind: EventKind) -> bool {
    &&& s.seq < u64::MAX ==> t.events == s.events.insert(
        Event { time: time as u64, seq: s.seq, kind },
    ) && t.seq == s.seq + 1
    &&& t =~= (Sim { events: t.events, seq: t.seq, ..s })
}

/// Whether an event-triggered reevaluation becomes pending for now: where the
/// policy asks for such, and the last one is at least the least interval ago.
pub open spec fn reevaluates(s: Sim, t: Sim) -> bool {
    let due = match s.policy {
        ReevaluationPolicy::EventTriggered { min_interval_ns } => is_rested(s, min_interval_ns),
        ReevaluationPolicy::Hybrid { min_interval_ns, .. } => is_rested(s, min_interval_ns),
        _ => false,
    };
    if due {
        pends(
            Sim { last_reevaluation: Some(s.now), ..s },
            t,
            s.now as int,
            EventKind::SchedulerReevaluation {
                generation: s.generation,
                trigger: ReevaluationTrigger::EventTriggered,
            },
        )
    } else {
        t == s
    }
}

/// Whether the last event-triggered reevaluation is long enough ago.
pub open spec fn is_rested(s: Sim, least: Nanos) -> bool {
    match s.last_reevaluation {
        Some(last) => s.now >= capped(last + least),
        None => true,
    }
}

/// Whether the next periodic reevaluation is pending, one interval from now,
/// where the policy asks for such.
pub open spec fn repeats(s: Sim, t: Sim) -> bool {
    let interval: int = match s.policy {
        ReevaluationPolicy::Periodic { interval_ns } => interval_ns as int,
        ReevaluationPolicy::Hybrid { interval_ns, .. } => interval_ns as int,
        _ => 0,
    };
    if interval > 0 {
        pends(
            s,
            t,
            capped(s.now + interval),
            EventKind::SchedulerReevaluation {
                generation: s.generation,
                trigger: ReevaluationTrigger::Periodic,
            },
        )
    } else {
        t == s
    }
}

/// Whether a job of a task is new: it has the next id, its deadline is that of
/// the task from its release on, its arrival is pending for its release, and
/// its deadline is checked right after it has passed.
pub open spec fn releases(
    s: Sim,
    t: Sim,
    task_id: TaskId,
    time: int,
    provenance: Option<DagProvenance>,
) -> bool {
    let task = s.tasks[task_id.0 as int];
    let id = JobId(s.jobs.len() as u64);
    let deadline = capped(time + task.deadline);
    let arrival = Event {
        time: time as u64,
        seq: s.seq,
        kind: EventKind::TaskArrival { task_id, job_id: id },
    };
    let check = Event {
        time: capped(deadline + 1) as u64,
        seq: (s.seq + 1) as u64,
        kind: EventKind::DeadlineCheck { job_id: id, expected_version: 0 },
    };
    &&& t.jobs =~= s.jobs.push(
        Some(
            Job {
                id,
                task_id,
                state: JobState::Released,
                version: 0,
                release_time: time as u64,
                absolute_deadline: deadline as u64,
                actual_exec_ns: None,
                dag_provenance: provenance,
                executed_ns: 0,
                assigned_device: None,
                exec_start_time: None,
                effective_priority: task.priority,
            },
        ),
    )
    &&& s.seq < u64::MAX - 1 ==> t.events == s.events.insert(arrival).insert(check) && t.seq
        == s.seq + 2
    &&& t =~= (Sim { jobs: t.jobs, events: t.events, seq: t.seq, ..s })
}

pub(crate) proof fn lemma_releases(s: Sim, task_id: TaskId, time: Nanos, provenance: Option<DagProvenance>)
    ensures
        releases(s, s.released(task_id, time, provenance), task_id, time as int, provenance),
{
}

/// The period of a task, or none where it arrives on demand.
pub open spec fn period_of(s: Sim, task_id: TaskId) -> int {
    match s.tasks[task_id.0 as int].arrival {
        ArrivalModel::Periodic { period } => period as int,
        ArrivalModel::Sporadic { min_inter_arrival } => min_inter_arrival as int,
        ArrivalModel::Aperiodic => 0,
    }
}

/// A job that arrives is counted. The next job of its task is new, one period
/// from now, where that is before the end. Then the scheduler's answer takes
/// effect, and a reevaluation may become due. An arrival of a job that is no
/// longer new does nothing.
pub proof fn law_arrivals(
    s: Sim,
    task_id: TaskId,
    id: JobId,
    answers: Seq<Seq<Action>>,
) -> (mid: (Sim, Sim, Sim))
    ensures
        ({
            let t = s.handled(EventKind::TaskArrival { task_id, job_id: id }, answers);
            let (counted, next, answered) = mid;
            let own = the_job(s, id).task_id;
            let arrives = has_job(s, id) && own.0 < s.tasks.len() && the_job(s, id).state
                is Released;
            let period = period_of(s, own);
            &&& !arrives ==> t == s
            &&& arrives ==> {
                &&& counted == (Sim {
                    tally: Tally { total: capped(s.tally.total + 1) as u64, ..s.tally },
                    ..s
                })
                &&& period > 0 && capped(s.now + period) < s.duration ==> releases(
                    counted,
                    next,
                    own,
                    s.now + period,
                    None,
                )
                &&& !(period > 0 && capped(s.now + period) < s.duration) ==> next == counted
                &&& answered == next.applied_all(
                    if answers.len() > 0 {
                        answers[0]
                    } else {
                        Seq::empty()
                    },
                    None,
                )
                &&& reevaluates(answered, t)
            }
        }),
{
    reveal(Sim::handled);
    let own = the_job(s, id).task_id;
    let counted = Sim {
        tally: Tally { total: capped(s.tally.total + 1) as u64, ..s.tally },
        ..s
    };
    let next = counted.next_released(own);
    let answered = next.applied_all(sim::answer(answers, 0), None);
    let period = period_of(s, own);
    if period > 0 && capped(s.now + period) < s.duration {
        lemma_releases(counted, own, (s.now + period) as u64, None);
    }
    (counted, next, answered)
}

/// Whether a job completes: it leaves its device, has executed all of its
/// time, and is recorded with its release and the time of now.
pub open spec fn completes(s: Sim, t: Sim, id: JobId, d: DeviceId) -> bool {
    let before = the_job(s, id);
    let job = the_job(t, id);
    &&& t.running =~= s.running.update(d.0 as int, None)
    &&& t.busy =~= s.busy.update(
        d.0 as int,
        capped(s.busy[d.0 as int] + motion::ran(s, id)) as u64,
    )
    &&& t.jobs =~= s.jobs.update(
        id.0 as int,
        Some(
            Job {
                state: JobState::Completed,
                version: job.version,
                executed_ns: job.executed_ns,
                exec_start_time: None,
                ..before
            },
        ),
    )
    &&& job.version == capped(before.version + 1)
    &&& before.actual_exec_ns matches Some(ns) ==> job.executed_ns == ns
    &&& t.tally.completed == capped(s.tally.completed + 1)
    &&& t.tally.completions =~= s.tally.completions.push(
        CompletionRecord {
            job_id: id,
            task_id: before.task_id,
            release_time: before.release_time,
            completion_time: s.now,
        },
    )
    &&& t.tally.total == s.tally.total
    &&& t.tally.missed == s.tally.missed
    &&& t.tally.misses == s.tally.misses
    &&& t =~= (Sim { running: t.running, busy: t.busy, jobs: t.jobs, tally: t.tally, ..s })
}

/// A job that completes leaves its device and is recorded; its successors get
/// its data; then the scheduler's answer takes effect, and a reevaluation may
/// become due. A completion of a job that does not run on the device does
/// nothing.
pub proof fn law_completions(
    s: Sim,
    id: JobId,
    d: DeviceId,
    version: u64,
    answers: Seq<Seq<Action>>,
) -> (mid: (Sim, Sim, Sim))
    requires
        is_laid_out(s),
    ensures
        ({
            let t = s.handled(
                EventKind::JobComplete { job_id: id, expected_version: version, device_id: d },
                answers,
            );
            let (done, handed, answered) = mid;
            &&& !runs_on(s, id, d) ==> t == s
            &&& runs_on(s, id, d) ==> {
                &&& completes(s, done, id, d)
                &&& match the_job(s, id).dag_provenance {
                    Some(p) if p.dag_instance_id.0 < s.dags.len() => handed == done.all_handed_on(
                        id,
                        d,
                        p,
                        dag_tracker::outgoing(s.dags[p.dag_instance_id.0 as int].bytes, p.node),
                    ),
                    _ => handed == done,
                }
                &&& answered == handed.applied_all(
                    if answers.len() > 0 {
                        answers[0]
                    } else {
                        Seq::empty()
                    },
                    None,
                )
                &&& reevaluates(answered, t)
            }
        }),
{
    reveal(Sim::handled);
    motion::lemma_runs_on(s, id, d);
    if runs_on(s, id, d) {
        let stopped = s.paused(id, d);
        motion::lemma_stops(s, id, d);
        let job = stopped.job(id)->0;
        let done_job = Job {
            executed_ns: match job.actual_exec_ns {
                Some(ns) => ns,
                None => job.executed_ns,
            },
            ..sim::moved(job, JobState::Completed)
        };
        let record = CompletionRecord {
            job_id: id,
            task_id: job.task_id,
            release_time: job.release_time,
            completion_time: s.now,
        };
        let done = Sim {
            tally: Tally {
                completed: arith::sat_add(s.tally.completed, 1),
                completions: s.tally.completions.push(record),
                ..s.tally
            },
            ..stopped.with_job(id, done_job)
        };
        let handed = done.succeeded(id, d);
        let answered = handed.applied_all(sim::answer(answers, 0), None);
        assert(s.completing(id, d) == handed);
        (done, handed, answered)
    } else {
        (s, s, s)
    }
}

/// A deadline that has passed before its job came to an end is missed: the miss
/// is recorded, and the job ends. Where the job ran, the scheduler's answer
/// takes effect. Otherwise nothing happens.
pub proof fn law_deadline_checks(
    s: Sim,
    id: JobId,
    version: u64,
    answers: Seq<Seq<Action>>,
) -> (mid: (Sim, Sim))
    requires
        is_laid_out(s),
    ensures
        ({
            let t = s.handled(
                EventKind::DeadlineCheck { job_id: id, expected_version: version },
                answers,
            );
            let (noted, ended) = mid;
            let state = the_job(s, id).state;
            let missed = has_job(s, id) && s.now > the_job(s, id).absolute_deadline && !(state
                is Completed || state is Dropped || state is DeadlineMissed);
            &&& !missed ==> t == s
            &&& missed ==> {
                &&& noted == (Sim {
                    tally: Tally {
                        missed: capped(s.tally.missed + 1) as u64,
                        misses: s.tally.misses.push(
                            MissRecord {
                                job_id: id,
                                task_id: the_job(s, id).task_id,
                                miss_time: s.now,
                            },
                        ),
                        ..s.tally
                    },
                    ..s
                })
                &&& motion::finishes(noted, ended, id, JobState::DeadlineMissed)
                &&& (exists|d: DeviceId| #[trigger] runs_on(s, id, d)) ==> t == ended.applied_all(
                    if answers.len() > 0 {
                        answers[0]
                    } else {
                        Seq::empty()
                    },
                    None,
                )
                &&& (forall|d: DeviceId| !#[trigger] runs_on(s, id, d)) ==> t == ended
            }
        }),
{
    reveal(Sim::handled);
    let noted = Sim {
        tally: Tally {
            missed: capped(s.tally.missed + 1) as u64,
            misses: s.tally.misses.push(
                MissRecord { job_id: id, task_id: the_job(s, id).task_id, miss_time: s.now },
            ),
            ..s.tally
        },
        ..s
    };
    let ended = noted.ended(id, JobState::DeadlineMissed);
    if has_job(s, id) {
        motion::lemma_finishes(noted, id, JobState::DeadlineMissed);
        assert forall|d: DeviceId| #[trigger] runs_on(s, id, d) == (s.device_of(id) == Some(d)) by {
            motion::lemma_runs_on(s, id, d);
        }
        if s.device_of(id) is Some {
            assert(runs_on(s, id, s.device_of(id)->0));
        }
    }
    (noted, ended)
}

/// Whether a job is under way and its task of low criticality.
pub open spec fn is_low(s: Sim, id: JobId) -> bool {
    &&& has_job(s, id)
    &&& the_job(s, id).task_id.0 < s.tasks.len()
    &&& the_task(s, id).criticality is Lo
    &&& match the_job(s, id).state {
        JobState::Ready => true,
        JobState::Transferring => true,
        JobState::Running => true,
        JobState::Suspended => true,
        JobState::Migrating => true,
        _ => false,
    }
}

proof fn lemma_low_dropped(s: Sim, n: int)
    requires
        is_laid_out(s),
        0 <= n <= s.jobs.len(),
        n <= u64::MAX,
    ensures
        is_laid_out(s.lo_dropped(n)),
        s.lo_dropped(n).jobs.len() == s.jobs.len(),
        s.lo_dropped(n).tasks == s.tasks,
        s.lo_dropped(n).level == s.level,
        s.lo_dropped(n).devices == s.devices,
        forall|k: int|
            0 <= k < n && is_low(s, JobId(k as u64)) ==> (#[trigger] s.lo_dropped(n).jobs[k] matches
            Some(job) && job.state is Dropped),
        forall|k: int|
            0 <= k < s.jobs.len() && !(k < n && is_low(s, JobId(k as u64))) ==> #[trigger] s.lo_dropped(
                n,
            ).jobs[k] == s.jobs[k],
    decreases n,
{
    if n > 0 {
        lemma_low_dropped(s, n - 1);
        let before = s.lo_dropped(n - 1);
        let id = JobId((n - 1) as u64);
        assert(before.jobs[n - 1] == s.jobs[n - 1]);
        assert(before.is_active_lo(id) == is_low(s, id));
        if is_low(s, id) {
            motion::lemma_finishes(before, id, JobState::Dropped);
            let after = before.ended(id, JobState::Dropped);
            assert(s.lo_dropped(n) == after);
            assert forall|k: int| 0 <= k < s.jobs.len() && k != n - 1 implies #[trigger] after.jobs[k]
                == before.jobs[k] by {}
            assert(after.jobs[n - 1] == Some(the_job(after, id)));
            assert(the_job(after, id).state is Dropped);
        }
    }
}

/// A budget overrun in the low level raises the level. The scheduler's answer
/// takes effect; then every job under way of low criticality is dropped and no
/// other job changes; then the scheduler answers for each idle device in turn.
/// In the high level nothing happens.
pub proof fn law_budget_overruns(
    s: Sim,
    id: JobId,
    version: u64,
    answers: Seq<Seq<Action>>,
) -> (mid: (Sim, Sim))
    requires
        is_laid_out(s),
    ensures
        ({
            let t = s.handled(
                EventKind::BudgetOverrun { job_id: id, expected_version: version },
                answers,
            );
            let (answered, dropped) = mid;
            let switches = s.level is Lo && has_job(s, id);
            &&& !switches ==> t == s
            &&& switches ==> {
                &&& answered == (Sim { level: CriticalityLevel::Hi, ..s }).applied_all(
                    if answers.len() > 0 {
                        answers[0]
                    } else {
                        Seq::empty()
                    },
                    None,
                )
                &&& is_laid_out(answered) && answered.jobs.len() <= u64::MAX ==> {
                    &&& dropped.jobs.len() == answered.jobs.len()
                    &&& forall|k: int|
                        0 <= k < dropped.jobs.len() ==> if is_low(answered, JobId(k as u64)) {
                            (#[trigger] dropped.jobs[k]) matches Some(job) && job.state is Dropped
                        } else {
                            dropped.jobs[k] == answered.jobs[k]
                        }
                }
                &&& t == dropped.polled(answers, s.devices.len() as int)
            }
        }),
{
    reveal(Sim::handled);
    let answered = Sim { level: CriticalityLevel::Hi, ..s }.applied_all(
        sim::answer(answers, 0),
        None,
    );
    let dropped = answered.lo_dropped(answered.jobs.len() as int);
    if is_laid_out(answered) && answered.jobs.len() <= u64::MAX {
        lemma_low_dropped(answered, answered.jobs.len() as int);
    }
    (answered, dropped)
}

/// The scheduler answers for the devices that are idle when their turn comes,
/// one after the other.
pub proof fn law_idle_devices_are_polled_in_turn(s: Sim, answers: Seq<Seq<Action>>, n: int)
    requires
        n >= 0,
    ensures
        s.polled(answers, 0) == s,
        s.polled(answers, n).running[n] is Some ==> s.polled(answers, n + 1) == s.polled(
            answers,
            n,
        ),
        s.polled(answers, n).running[n] is None && n + 1 < answers.len() ==> s.polled(
            answers,
            n + 1,
        ) == s.polled(answers, n).applied_all(answers[n + 1], None),
{
}

/// At a preemption point the scheduler's answer takes effect. Where the job
/// still runs on the device, in the same state, the next point is pending one
/// interval from now. A point of a job that does not run there does nothing.
pub proof fn law_preemption_points(
    s: Sim,
    id: JobId,
    d: DeviceId,
    version: u64,
    answers: Seq<Seq<Action>>,
) -> (answered: Sim)
    ensures
        ({
            let t = s.handled(
                EventKind::PreemptionPoint { device_id: d, job_id: id, expected_version: version },
                answers,
            );
            &&& !runs_on(s, id, d) ==> t == s
            &&& runs_on(s, id, d) ==> {
                &&& answered == s.applied_all(
                    if answers.len() > 0 {
                        answers[0]
                    } else {
                        Seq::empty()
                    },
                    Some(d),
                )
                &&& if runs_on(answered, id, d) && the_job(answered, id).version == version
                    && interval_of(answered.devices[d.0 as int]) > 0 {
                    pends(
                        answered,
                        t,
                        capped(answered.now + interval_of(answered.devices[d.0 as int])),
                        EventKind::PreemptionPoint {
                            device_id: d,
                            job_id: id,
                            expected_version: version,
                        },
                    )
                } else {
                    t == answered
                }
            }
        }),
{
    reveal(Sim::handled);
    motion::lemma_runs_on(s, id, d);
    let answered = s.applied_all(sim::answer(answers, 0), Some(d));
    motion::lemma_runs_on(answered, id, d);
    answered
}

/// Whether transfers and pending events follow from a request to them, and
/// nothing else changes.
pub open spec fn passes(
    s: Sim,
    t: Sim,
    outcome: (Transfers, Seq<ScheduledEvent>),
) -> bool {
    &&& t.transfers == outcome.0
    &&& adds(s, t, outcome.1)
    &&& t =~= (Sim { transfers: t.transfers, events: t.events, seq: t.seq, ..s })
}

proof fn lemma_passes(s: Sim, outcome: (Transfers, Seq<ScheduledEvent>))
    requires
        outcome.1.len() <= 1,
    ensures
        passes(
            s,
            (Sim { transfers: outcome.0, ..s }).scheduled_all(outcome.1),
            outcome,
        ),
{
    let mid = Sim { transfers: outcome.0, ..s };
    motion::lemma_adds(mid, outcome.1);
    sim::lemma_scheduled_all(mid, outcome.1);
}

/// When the data of a job has arrived, the transfer is over. A job that was on
/// its way to the device starts there where it is idle, and waits there where
/// it is busy.
pub proof fn law_transfers_end(
    s: Sim,
    id: JobId,
    d: DeviceId,
    version: u64,
    answers: Seq<Seq<Action>>,
) -> (over: Sim)
    requires
        is_laid_out(s),
    ensures
        ({
            let t = s.handled(
                EventKind::TransferComplete { job_id: id, expected_version: version, device_id: d },
                answers,
            );
            let lands = has_job(s, id) && the_job(s, id).task_id.0 < s.tasks.len() && d.0
                < s.devices.len() && (the_job(s, id).state is Transferring || the_job(
                s,
                id,
            ).state is Migrating) && the_job(s, id).assigned_device == Some(d) && can_run(s, id, d);
            &&& passes(
                s,
                over,
                s.transfers.completed(s.links, s.buses, TransferId::Job(id), s.now),
            )
            &&& !lands ==> t == over
            &&& lands && s.running[d.0 as int] is None ==> motion::starts(over, t, id, d, 0)
            &&& lands && s.running[d.0 as int] is Some ==> motion::waits(over, t, id, d)
        }),
{
    reveal(Sim::handled);
    let outcome = s.transfers.completed(s.links, s.buses, TransferId::Job(id), s.now);
    lemma_passes(s, outcome);
    let over = Sim { transfers: outcome.0, ..s }.scheduled_all(outcome.1);
    if has_job(s, id) {
        motion::lemma_can_run(over, id, d);
        lemma_same_run(s, over, id, d);
        if the_job(s, id).task_id.0 < s.tasks.len() && d.0 < s.devices.len() && can_run(s, id, d) {
            motion::lemma_starts(over, id, d, 0);
            motion::lemma_waits(over, id, d);
        }
    }
    over
}

proof fn lemma_same_run(s: Sim, t: Sim, id: JobId, d: DeviceId)
    requires
        s.jobs == t.jobs,
        s.tasks == t.tasks,
        s.devices == t.devices,
    ensures
        can_run(s, id, d) == can_run(t, id, d),
{
}

/// A bus that is asked to serve does so where no transfer is on it; otherwise
/// nothing happens.
pub proof fn law_arbitration(s: Sim, bus: BusId, answers: Seq<Seq<Action>>)
    ensures
        ({
            let t = s.handled(EventKind::BusArbitration { bus_id: bus }, answers);
            &&& traffic::is_taken(s.transfers.active, bus) ==> t == s
            &&& !traffic::is_taken(s.transfers.active, bus) ==> passes(
                s,
                t,
                s.transfers.next_served(s.links, s.buses, bus, s.now),
            )
        }),
{
    reveal(Sim::handled);
    traffic::lemma_taken(s.transfers, bus);
    lemma_passes(s, s.transfers.next_served(s.links, s.buses, bus, s.now));
}

/// At a reevaluation of the current run the scheduler's answer takes effect,
/// and after a periodic one the next is pending. One of an earlier run does
/// nothing.
pub proof fn law_reevaluations(
    s: Sim,
    generation: u64,
    trigger: ReevaluationTrigger,
    answers: Seq<Seq<Action>>,
) -> (answered: Sim)
    ensures
        ({
            let t = s.handled(EventKind::SchedulerReevaluation { generation, trigger }, answers);
            &&& generation != s.generation ==> t == s
            &&& generation == s.generation ==> {
                &&& answered == s.applied_all(
                    if answers.len() > 0 {
                        answers[0]
                    } else {
                        Seq::empty()
                    },
                    None,
                )
                &&& trigger is Periodic ==> repeats(answered, t)
                &&& trigger is EventTriggered ==> t == answered
            }
        }),
{
    reveal(Sim::handled);
    s.applied_all(sim::answer(answers, 0), None)
}

/// The end of a simulation changes nothing.
pub proof fn law_end(s: Sim, answers: Seq<Seq<Action>>)
    ensures
        s.handled(EventKind::SimulationEnd, answers) == s,
{
    reveal(Sim::handled);
}

/// The version of its job that an event was meant for, where it goes by one.
pub open spec fn meant_for(kind: EventKind) -> Option<(JobId, u64)> {
    match kind {
        EventKind::JobComplete { job_id, expected_version, .. } => Some((job_id, expected_version)),
        EventKind::PreemptionPoint { job_id, expected_version, .. } => Some(
            (job_id, expected_version),
        ),
        EventKind::TransferComplete { job_id, expected_version, .. } => Some(
            (job_id, expected_version),
        ),
        EventKind::EdgeTransferComplete { job_id, expected_version, .. } => Some(
            (job_id, expected_version),
        ),
        EventKind::BudgetOverrun { job_id, expected_version } => Some((job_id, expected_version)),
        _ => None,
    }
}

/// An event that is processed is no longer pending, and the clock shows its
/// time. Where its job has another version than it was meant for, nothing else
/// happens; otherwise it is counted and takes effect.
pub proof fn law_events_take_effect_once(s: Sim, event: Event, answers: Seq<Seq<Action>>)
    ensures
        ({
            let t = s.processed_event(event, answers);
            let taken = Sim { events: s.events.remove(event), now: event.time, ..s };
            let stale = meant_for(event.kind) matches Some((id, version)) && has_job(s, id)
                && the_job(s, id).version != version;
            &&& stale ==> t == taken
            &&& !stale ==> t == (Sim {
                processed: capped(s.processed + 1) as u64,
                ..taken
            }).handled(event.kind, answers)
        }),
{
}

/// A run begins with its policy and a generation of its own; its end is
/// pending, at the configured time or now where that has passed, and so is the
/// first periodic reevaluation.
pub proof fn law_runs_begin(s: Sim, policy: ReevaluationPolicy) -> (mid: Sim)
    ensures
        pends(
            Sim {
                policy,
                generation: capped(s.generation + 1) as u64,
                last_reevaluation: None,
                ..s
            },
            mid,
            if s.now > s.duration {
                s.now as int
            } else {
                s.duration as int
            },
            EventKind::SimulationEnd,
        ),
        repeats(mid, s.begun(policy)),
{
    Sim {
        policy,
        generation: arith::sat_add(s.generation, 1),
        last_reevaluation: None,
        ..s
    }.scheduled(s.end(), EventKind::SimulationEnd)
}

/// When a simulation starts, each task that arrives with a period has a first
/// job, in the order of the tasks.
pub proof fn law_first_jobs(s: Sim, n: int)
    requires
        0 <= n < s.tasks.len(),
        s.tasks.len() <= u32::MAX,
    ensures
        s.first_released(0) == s,
        match s.tasks[n].arrival {
            ArrivalModel::Aperiodic => s.first_released(n + 1) == s.first_released(n),
            _ => releases(
                s.first_released(n),
                s.first_released(n + 1),
                TaskId(n as u32),
                s.now as int,
                None,
            ),
        },
{
    lemma_first_released(s, n);
    lemma_releases(s.first_released(n), TaskId(n as u32), s.now, None);
}

proof fn lemma_first_released(s: Sim, n: int)
    requires
        0 <= n,
    ensures
        s.first_released(n).tasks == s.tasks,
    decreases n,
{
    if n > 0 {
        lemma_first_released(s, n - 1);
    }
}

/// Whether a device is where the data for a successor goes: the device that it
/// lies on where the successor can run there or nowhere, else the first device
/// that the successor can run on.
pub open spec fn goes_to(s: Sim, task_id: TaskId, from: DeviceId, to: DeviceId) -> bool {
    let types = s.tasks[task_id.0 as int].affinity@;
    if types.contains(s.devices[from.0 as int].device_type) || (forall|j: int|
        0 <= j < s.devices.len() ==> !types.contains((#[trigger] s.devices[j]).device_type)) {
        to == from
    } else {
        &&& to.0 < s.devices.len()
        &&& types.contains(s.devices[to.0 as int].device_type)
        &&& forall|j: int|
            0 <= j < to.0 ==> !types.contains((#[trigger] s.devices[j]).device_type)
    }
}

/// A node hands the data of an edge on. Where the successor runs on the device
/// that the data lies on, the edge is satisfied at once. Otherwise the data is
/// sent to the device that the successor can run on.
pub proof fn law_data_is_handed_on(
    s: Sim,
    id: JobId,
    d: DeviceId,
    p: DagProvenance,
    to_node: SubTaskIdx,
    bytes: u64,
    i: int,
    task_id: TaskId,
) -> (target: DeviceId)
    requires
        is_laid_out(s),
        has_job(s, id),
        p.dag_instance_id.0 < s.dags.len(),
        dag_tracker::is_last_proxy(s.dags[p.dag_instance_id.0 as int], to_node, i),
        s.dags[p.dag_instance_id.0 as int].proxies[i].task_id == task_id,
        task_id.0 < s.tasks.len(),
    ensures
        ({
            let t = s.handed_on(id, d, p, to_node, bytes);
            let edge = EdgeTransferId {
                dag_instance_id: p.dag_instance_id,
                from_node: p.node,
                to_node,
            };
            &&& goes_to(s, task_id, d, target)
            &&& target == d ==> t == s.edge_satisfied(edge)
            &&& target != d ==> passes(
                s,
                t,
                s.transfers.requested(
                    s.links,
                    TransferRequest {
                        id: TransferId::Edge(edge),
                        owner_job_id: id,
                        from: d,
                        to: target,
                        data_size: bytes,
                        reason: TransferReason::Edge,
                        priority: the_job(s, id).effective_priority,
                        expected_version: the_job(s, id).version,
                    },
                    s.now,
                ),
            )
        }),
{
    let state = s.dags[p.dag_instance_id.0 as int];
    let cond = dag_tracker::runs_node(to_node);
    search::law_last_where(state.proxies, cond);
    assert forall|j: int| 0 <= j < state.proxies.len() implies cond(state.proxies[j]) == ((
    #[trigger] state.proxies[j]).node == to_node) by {}
    let k = search::last_where(state.proxies, cond);
    assert(cond(state.proxies[i]));
    assert(state.proxies[k->0].node == to_node);
    assert(state.task_of(to_node) == Some(task_id));
    let types = s.tasks[task_id.0 as int].affinity@;
    let able = sim::is_of(types);
    search::law_first_where(s.devices, able);
    assert forall|j: int| 0 <= j < s.devices.len() implies able(s.devices[j]) == types.contains(
        (#[trigger] s.devices[j]).device_type,
    ) by {}
    let target = s.successor_device(task_id, d);
    if let Some(j) = search::first_where(s.devices, able) {
        assert(types.contains(s.devices[j].device_type));
        assert(DeviceId(j as u32).0 == j);
        assert forall|m: int| 0 <= m < j implies !types.contains(
            (#[trigger] s.devices[m]).device_type,
        ) by {
            assert(!able(s.devices[m]));
        }
    }
    let edge = EdgeTransferId { dag_instance_id: p.dag_instance_id, from_node: p.node, to_node };
    let request = TransferRequest {
        id: TransferId::Edge(edge),
        owner_job_id: id,
        from: d,
        to: target,
        data_size: bytes,
        reason: TransferReason::Edge,
        priority: the_job(s, id).effective_priority,
        expected_version: the_job(s, id).version,
    };
    lemma_passes(s, s.transfers.requested(s.links, request, s.now));
    target
}

/// When the data of an edge has arrived, the transfer is over and the edge is
/// satisfied.
pub proof fn law_edge_transfers_end(
    s: Sim,
    id: JobId,
    d: DeviceId,
    version: u64,
    edge: EdgeTransferId,
    answers: Seq<Seq<Action>>,
) -> (over: Sim)
    ensures
        passes(
            s,
            over,
            s.transfers.completed(s.links, s.buses, TransferId::Edge(edge), s.now),
        ),
        s.handled(
            EventKind::EdgeTransferComplete {
                job_id: id,
                expected_version: version,
                device_id: d,
                edge_id: edge,
            },
            answers,
        ) == over.edge_satisfied(edge),
{
    reveal(Sim::handled);
    let outcome = s.transfers.completed(s.links, s.buses, TransferId::Edge(edge), s.now);
    lemma_passes(s, outcome);
    Sim { transfers: outcome.0, ..s }.scheduled_all(outcome.1)
}

/// Whether a provenance names the node that a proxy task of a DAG instance
/// runs, the last one where several have the task.
pub open spec fn comes_from(
    s: Sim,
    instance: DagInstanceId,
    task_id: TaskId,
    provenance: Option<DagProvenance>,
) -> bool {
    let proxies = s.dags[instance.0 as int].proxies;
    match provenance {
        Some(p) => p.dag_instance_id == instance && exists|i: int|
            0 <= i < proxies.len() && (#[trigger] proxies[i]).task_id == task_id && proxies[i].node
                == p.node && (forall|j: int|
                i < j < proxies.len() ==> (#[trigger] proxies[j]).task_id != task_id),
        None => forall|j: int|
            0 <= j < proxies.len() ==> (#[trigger] proxies[j]).task_id != task_id,
    }
}

/// An edge that is satisfied is noted in its DAG. Where that was the last one
/// of a node, a job of the node is new, and arrives now.
pub proof fn law_edges_release_nodes(s: Sim, edge: EdgeTransferId) -> (mid: (
    Sim,
    Option<DagProvenance>,
))
    ensures
        ({
            let t = s.edge_satisfied(edge);
            let i = edge.dag_instance_id.0 as int;
            let (noted, provenance) = mid;
            &&& i >= s.dags.len() ==> t == s
            &&& i < s.dags.len() ==> {
                let (state, tasks) = s.dags[i].marked(edge.from_node, edge.to_node);
                &&& noted =~= (Sim { dags: s.dags.update(i, state), ..s })
                &&& tasks.len() <= 1
                &&& tasks.len() == 0 ==> t == noted
                &&& tasks.len() == 1 && tasks[0].0 >= s.tasks.len() ==> t == noted
                &&& tasks.len() == 1 && tasks[0].0 < s.tasks.len() ==> comes_from(
                    noted,
                    edge.dag_instance_id,
                    tasks[0],
                    provenance,
                ) && releases(noted, t, tasks[0], s.now as int, provenance)
            }
        }),
{
    let i = edge.dag_instance_id.0 as int;
    if i < s.dags.len() {
        let (state, tasks) = s.dags[i].marked(edge.from_node, edge.to_node);
        let noted = Sim { dags: s.dags.update(i, state), ..s };
        if tasks.len() == 1 {
            let task_id = tasks[0];
            let provenance = noted.provenance(edge.dag_instance_id, task_id);
            let cond = dag_tracker::is_task(task_id);
            search::law_last_where(state.proxies, cond);
            assert forall|j: int| 0 <= j < state.proxies.len() implies cond(state.proxies[j]) == ((
            #[trigger] state.proxies[j]).task_id == task_id) by {}
            if let Some(k) = search::last_where(state.proxies, cond) {
                assert(state.proxies[k].task_id == task_id);
            }
            assert(tasks.drop_last().len() == 0);
            assert(noted.nodes_released(tasks.drop_last(), edge.dag_instance_id) == noted);
            lemma_releases(noted, task_id, s.now, provenance);
            (noted, provenance)
        } else {
            (noted, None)
        }
    } else {
        (s, None)
    }
}

/// A node hands its data to its successors one after the other, in their order.
pub proof fn law_successors_get_data_in_turn(
    s: Sim,
    id: JobId,
    d: DeviceId,
    p: DagProvenance,
    list: Seq<(SubTaskIdx, u64)>,
    next: (SubTaskIdx, u64),
)
    ensures
        s.all_handed_on(id, d, p, Seq::empty()) == s,
        s.all_handed_on(id, d, p, list.push(next)) == s.all_handed_on(id, d, p, list).handed_on(
            id,
            d,
            p,
            next.0,
            next.1,
        ),
{
    assert(list.push(next).drop_last() =~= list);
}

} // verus!

//! The work left of jobs, as algorithms that go by it remember it from one
//! answer to the next.

use crate::device::DeviceConfig;
use crate::ids::DeviceId;
use crate::job::Job;
use crate::scheduler::{
    Action, QueuedJobInfo, ReevaluationTrigger, RunningJobInfo, Scheduler, Sight,
};
use crate::schedulers::conduct;
use crate::schedulers::conduct::{ahead, interruptible, laxity, only, Order};
use crate::schedulers::modes;
use crate::schedulers::progress::Progress;
use crate::schedulers::{cpedf, placement, tables};
use crate::schedulers::{CpEdfScheduler, LlfScheduler};
use crate::select;
use crate::task::{CriticalityLevel, DeviceType, ExecutionTimeModel, Task};
use vstd::prelude::*;

verus! {

/// Whether the entry at a place shows a job running, and no other entry does.
pub open spec fn only_entry(view: Sight, i: int, r: RunningJobInfo) -> bool {
    &&& 0 <= i < view.running_jobs.len()
    &&& view.running_jobs[i].1 == Some(r)
    &&& forall|j: int|
        0 <= j < view.running_jobs.len() && j != i ==> ((#[trigger] view.running_jobs[j]).1 matches
        Some(s) ==> s.job_id != r.job_id)
}

/// Whether no entry shows a job running.
pub open spec fn not_running(view: Sight, id: u64) -> bool {
    forall|j: int|
        0 <= j < view.running_jobs.len() ==> ((#[trigger] view.running_jobs[j]).1 matches Some(s)
            ==> s.job_id.0 != id)
}

/// Whether no queue holds a job.
pub open spec fn not_waiting(view: Sight, id: u64) -> bool {
    forall|i: int, k: int|
        0 <= i < view.ready_queues.len() && 0 <= k < view.ready_queues[i].1.len() ==> (
        #[trigger] view.ready_queues[i].1[k]).job_id.0 != id
}

/// The time that a running job executed since it was seen last; the whole time
/// where it was not seen, or has started anew.
pub open spec fn executed(before: Progress, r: RunningJobInfo) -> int {
    if before.elapsed.contains_key(r.job_id.0) && before.elapsed[r.job_id.0] <= r.elapsed_ns {
        r.elapsed_ns - before.elapsed[r.job_id.0]
    } else {
        r.elapsed_ns as int
    }
}

/// Whether the work left of a job is counted: what a running job executed comes
/// off, a waiting job keeps its work, and any other is forgotten.
pub open spec fn counts(before: Progress, view: Sight, after: Progress, id: u64) -> bool {
    &&& forall|i: int, r: RunningJobInfo| #[trigger]
        only_entry(view, i, r) && r.job_id.0 == id ==> {
            &&& after.elapsed.contains_key(id) && after.elapsed[id] == r.elapsed_ns
            &&& after.remaining_of(id) == if before.remaining_of(id) < executed(before, r) {
                0
            } else {
                before.remaining_of(id) - executed(before, r)
            }
        }
    &&& not_running(view, id) ==> !after.elapsed.contains_key(id)
    &&& not_running(view, id) && !not_waiting(view, id) ==> after.remaining_of(id)
        == before.remaining_of(id)
    &&& not_running(view, id) && not_waiting(view, id) ==> after.remaining_of(id) == 0
}

proof fn lemma_seen(p: Progress, view: Sight, id: u64)
    ensures
        not_running(view, id) ==> {
            let all = p.seen_all(tables::running_list(view.running_jobs));
            &&& all.remaining.contains_key(id) == p.remaining.contains_key(id)
            &&& all.elapsed.contains_key(id) == p.elapsed.contains_key(id)
            &&& p.remaining.contains_key(id) ==> all.remaining[id] == p.remaining[id]
            &&& p.elapsed.contains_key(id) ==> all.elapsed[id] == p.elapsed[id]
        },
        forall|i: int, r: RunningJobInfo| #[trigger]
            only_entry(view, i, r) && r.job_id.0 == id ==> {
                let all = p.seen_all(tables::running_list(view.running_jobs));
                &&& all.elapsed.contains_key(id) && all.elapsed[id] == r.elapsed_ns
                &&& all.remaining_of(id) == if p.remaining_of(id) < executed(p, r) {
                    0
                } else {
                    p.remaining_of(id) - executed(p, r)
                }
            },
    decreases view.running_jobs.len(),
{
    let entries = view.running_jobs;
    if entries.len() > 0 {
        let rest = Sight { running_jobs: entries.drop_last(), ..view };
        let last = entries.last().1;
        let n = entries.len() - 1;
        lemma_seen(p, rest, id);
        assert forall|j: int| 0 <= j < n implies rest.running_jobs[j] == #[trigger] entries[j] by {}
        let before = tables::running_list(rest.running_jobs);
        if let Some(s) = last {
            assert(before.push(s).drop_last() =~= before);
        }
        if not_running(view, id) {
            assert(not_running(rest, id)) by {
                assert forall|j: int| 0 <= j < rest.running_jobs.len() implies ((
                #[trigger] rest.running_jobs[j]).1 matches Some(s) ==> s.job_id.0 != id) by {
                    assert(entries[j].1 == rest.running_jobs[j].1);
                }
            }
            assert(entries[n].1 == last);
        }
        assert forall|i: int, r: RunningJobInfo| #[trigger]
            only_entry(view, i, r) && r.job_id.0 == id implies {
            let all = p.seen_all(tables::running_list(view.running_jobs));
            &&& all.elapsed.contains_key(id) && all.elapsed[id] == r.elapsed_ns
            &&& all.remaining_of(id) == if p.remaining_of(id) < executed(p, r) {
                0
            } else {
                p.remaining_of(id) - executed(p, r)
            }
        } by {
            if i < n {
                assert(only_entry(rest, i, r)) by {
                    assert forall|j: int|
                        0 <= j < rest.running_jobs.len() && j != i implies ((
                    #[trigger] rest.running_jobs[j]).1 matches Some(s) ==> s.job_id
                        != r.job_id) by {
                        assert(entries[j].1 == rest.running_jobs[j].1);
                    }
                }
                assert(entries[n].1 == last);
            } else {
                assert(not_running(rest, id)) by {
                    assert forall|j: int| 0 <= j < rest.running_jobs.len() implies ((
                    #[trigger] rest.running_jobs[j]).1 matches Some(s) ==> s.job_id.0 != id) by {
                        assert(entries[j].1 == rest.running_jobs[j].1);
                    }
                }
            }
        }
    }
}

/// Observing a view counts the work left of each job.
pub proof fn law_observing_counts_work(p: Progress, view: Sight, id: u64)
    ensures
        counts(p, view, p.observed(view), id),
{
    lemma_seen(p, view, id);
    let running = tables::running_list(view.running_jobs);
    let waiting = tables::waiting_list(view.ready_queues);
    if not_running(view, id) {
        assert(!tables::runs(view, id)) by {
            if tables::runs(view, id) {
                let k = choose|k: int|
                    0 <= k < running.len() && (#[trigger] running[k]).job_id.0 == id;
                assert(running.contains(running[k]));
                modes::lemma_running_list(view, running[k]);
            }
        }
    }
    assert forall|i: int, r: RunningJobInfo| #[trigger]
        only_entry(view, i, r) && r.job_id.0 == id implies tables::runs(view, id) by {
        modes::lemma_running_list(view, r);
        let k = choose|k: int| 0 <= k < running.len() && running[k] == r;
        assert(running[k].job_id.0 == id);
    }
    if not_waiting(view, id) {
        assert(!tables::waits(view, id)) by {
            if tables::waits(view, id) {
                let k = choose|k: int|
                    0 <= k < waiting.len() && (#[trigger] waiting[k]).job_id.0 == id;
                assert(waiting.contains(waiting[k]));
                modes::lemma_waiting_list(view, waiting[k]);
            }
        }
    } else {
        let (i, k) = choose|i: int, k: int|
            0 <= i < view.ready_queues.len() && 0 <= k < view.ready_queues[i].1.len() && (
            #[trigger] view.ready_queues[i].1[k]).job_id.0 == id;
        let q = view.ready_queues[i].1[k];
        modes::lemma_waiting_list(view, q);
        let n = choose|n: int| 0 <= n < waiting.len() && waiting[n] == q;
        assert(waiting[n].job_id.0 == id);
    }
}

/// Least laxity first counts the work left of each other job at every answer
/// but that to an idle device, which takes the head of its queue. A job that
/// completes is forgotten.
pub proof fn law_least_laxity_counts_work(
    mind: LlfScheduler,
    job: &Job,
    task: &Task,
    d: DeviceId,
    level: CriticalityLevel,
    trigger: ReevaluationTrigger,
    view: Sight,
    actions: Seq<Action>,
    after: LlfScheduler,
    id: u64,
)
    ensures
        mind.answers_arrival(job, task, view, actions, &after) && id != job.id.0 ==> counts(
            mind.progress(),
            view,
            after.progress(),
            id,
        ),
        mind.answers_completion(job, d, view, actions, &after) && id != job.id.0 ==> counts(
            mind.progress(),
            view,
            after.progress(),
            id,
        ),
        mind.answers_completion(job, d, view, actions, &after) ==> after.progress().remaining_of(
            job.id.0,
        ) == 0 && !after.progress().elapsed.contains_key(job.id.0),
        mind.answers_arrival(job, task, view, actions, &after)
            ==> !after.progress().elapsed.contains_key(job.id.0),
        mind.answers_point(d, job, view, actions, &after) ==> counts(
            mind.progress(),
            view,
            after.progress(),
            id,
        ),
        mind.answers_change(level, job, view, actions, &after) ==> counts(
            mind.progress(),
            view,
            after.progress(),
            id,
        ),
        mind.answers_reevaluation(trigger, view, actions, &after) ==> counts(
            mind.progress(),
            view,
            after.progress(),
            id,
        ),
        mind.answers_idle(d, view, actions, &after) ==> after == mind && conduct::serves_head(
            actions,
            view.waiting_at(d),
            d,
        ),
{
    law_observing_counts_work(mind.progress(), view, id);
}

/// The stage of a job of a DAG counts against others: deeper nodes come first,
/// jobs of no DAG last.
pub open spec fn depth(after: CpEdfScheduler, id: u64) -> int {
    if after.stages().contains_key(id) {
        u32::MAX - after.stages()[id]
    } else {
        u32::MAX as int
    }
}

/// Jobs by slack, deadline, depth, release and id.
pub open spec fn by_slack(
    after: CpEdfScheduler,
    now: u64,
    id: u64,
    deadline: u64,
    release: u64,
) -> Order {
    (
        laxity(now, deadline, after.progress().remaining_of(id)),
        deadline as int,
        depth(after, id),
        release as int,
        id as int,
        0,
    )
}

/// Waiting jobs by slack.
pub open spec fn slack_order(after: CpEdfScheduler, now: u64) -> spec_fn(QueuedJobInfo) -> Order {
    |q: QueuedJobInfo|
        by_slack(after, now, q.job_id.0, q.absolute_deadline, q.release_time)
}

proof fn lemma_best_slack(queue: Seq<QueuedJobInfo>, after: CpEdfScheduler, now: u64)
    ensures
        conduct::chosen(
            queue,
            cpedf::best_slack(queue, now, after.progress(), after.stages()),
            slack_order(after, now),
        ),
{
    let keys = cpedf::waiting_keys(queue, now, after.progress(), after.stages());
    let order = slack_order(after, now);
    select::law_least_is_first_minimum(keys);
    if let Some(at) = select::least(keys) {
        assert forall|j: int| 0 <= j < queue.len() implies !ahead(
            order(#[trigger] queue[j]),
            order(queue[at]),
        ) by {
            assert(!keys[j].less(keys[at]));
        }
        assert(conduct::is_first(queue, at, order));
    }
}

/// Whether a type is the first that a task asks for which a device answers.
pub open spec fn is_first_answered(
    task: &Task,
    devices: Seq<DeviceConfig>,
    d: DeviceId,
    k: int,
) -> bool {
    &&& 0 <= k < task.affinity@.len()
    &&& answers(devices, d, task.affinity@[k])
    &&& forall|j: int| 0 <= j < k ==> !answers(devices, d, #[trigger] task.affinity@[j])
}

/// Whether a list holds a device of an id and a type.
pub open spec fn answers(devices: Seq<DeviceConfig>, d: DeviceId, dt: DeviceType) -> bool {
    exists|i: int|
        0 <= i < devices.len() && (#[trigger] devices[i]).id == d && devices[i].device_type == dt
}

/// Whether a number is the worst time of a task on a type, or its greatest one
/// where it gives none for the type.
pub open spec fn is_work(task: &Task, dt: DeviceType, work: u64) -> bool {
    match task.worst_on(dt) {
        Some(wcet) => work == wcet,
        None => {
            &&& forall|k: int|
                0 <= k < task.exec_times@.len() ==> (#[trigger] task.exec_times@[k]).1.worst()
                    <= work
            &&& if task.exec_times@.len() == 0 {
                work == 0
            } else {
                exists|k: int|
                    0 <= k < task.exec_times@.len() && (#[trigger] task.exec_times@[k]).1.worst()
                        == work
            }
        },
    }
}

proof fn lemma_greatest_wcet(times: Seq<(DeviceType, ExecutionTimeModel)>)
    ensures
        forall|k: int|
            0 <= k < times.len() ==> (#[trigger] times[k]).1.worst() <= cpedf::greatest_wcet(times),
        times.len() == 0 ==> cpedf::greatest_wcet(times) == 0,
        times.len() > 0 ==> exists|k: int|
            0 <= k < times.len() && (#[trigger] times[k]).1.worst() == cpedf::greatest_wcet(times),
    decreases times.len(),
{
    if times.len() > 0 {
        let rest = times.drop_last();
        let n = times.len() - 1;
        lemma_greatest_wcet(rest);
        assert forall|j: int| 0 <= j < rest.len() implies rest[j] == #[trigger] times[j] by {}
        assert forall|k: int| 0 <= k < times.len() implies (#[trigger] times[k]).1.worst()
            <= cpedf::greatest_wcet(times) by {
            if k < n {
                assert(rest[k].1.worst() <= cpedf::greatest_wcet(rest));
            }
        }
        if times[n].1.worst() > cpedf::greatest_wcet(rest) || rest.len() == 0 {
            assert(times[n].1.worst() == cpedf::greatest_wcet(times));
        } else {
            let k = choose|k: int|
                0 <= k < rest.len() && (#[trigger] rest[k]).1.worst() == cpedf::greatest_wcet(rest);
            assert(times[k].1.worst() == cpedf::greatest_wcet(times));
        }
    }
}

proof fn lemma_answered(affinity: Seq<DeviceType>, devices: Seq<DeviceConfig>, d: DeviceId)
    ensures
        match cpedf::answered_type(affinity, devices, d) {
            Some(dt) => exists|k: int|
                0 <= k < affinity.len() && #[trigger] affinity[k] == dt && answers(devices, d, dt)
                    && (forall|j: int| 0 <= j < k ==> !answers(devices, d, #[trigger] affinity[j])),
            None => forall|j: int|
                0 <= j < affinity.len() ==> !answers(devices, d, #[trigger] affinity[j]),
        },
    decreases affinity.len(),
{
    if affinity.len() > 0 {
        let rest = affinity.drop_last();
        let n = affinity.len() - 1;
        lemma_answered(rest, devices, d);
        assert forall|j: int| 0 <= j < rest.len() implies rest[j] == #[trigger] affinity[j] by {}
        match cpedf::answered_type(rest, devices, d) {
            Some(dt) => {
                let k = choose|k: int|
                    0 <= k < rest.len() && #[trigger] rest[k] == dt && answers(devices, d, dt) && (
                    forall|j: int| 0 <= j < k ==> !answers(devices, d, #[trigger] rest[j]));
                assert(affinity[k] == dt);
                assert forall|j: int| 0 <= j < k implies !answers(
                    devices,
                    d,
                    #[trigger] affinity[j],
                ) by {
                    assert(!answers(devices, d, rest[j]));
                }
            },
            None => {
                assert forall|j: int| 0 <= j < n implies !answers(
                    devices,
                    d,
                    #[trigger] affinity[j],
                ) by {
                    assert(!answers(devices, d, rest[j]));
                }
                assert(affinity[n] == affinity.last());
            },
        }
    }
}

/// Critical-path EDF puts an arriving job on the least loaded device that it
/// can run on, where it preempts the running job exactly where the device can
/// be interrupted and the job comes first by slack, deadline, depth, release
/// and id. Its work left is its execution time where that is known, else that
/// of its task on the type of the device.
pub proof fn law_critical_path_arrival(
    mind: CpEdfScheduler,
    job: &Job,
    task: &Task,
    view: Sight,
    actions: Seq<Action>,
    after: CpEdfScheduler,
)
    requires
        conduct::held(view),
        mind.answers_arrival(job, task, view, actions, &after),
    ensures
        view.compatible_with(task).len() == 0 ==> only(actions, Action::NoOp),
        view.compatible_with(task).len() > 0 ==> exists|d: DeviceId| #[trigger]
            conduct::is_least_loaded(view, view.compatible_with(task), d) && conduct::joins(
                actions,
                job.id,
                d,
                view.running_at(d),
                |r: RunningJobInfo|
                    interruptible(view, d, false) && ahead(
                        by_slack(
                            after,
                            view.now,
                            job.id.0,
                            job.absolute_deadline,
                            job.release_time,
                        ),
                        by_slack(
                            after,
                            view.now,
                            r.job_id.0,
                            r.absolute_deadline,
                            r.release_time,
                        ),
                    ),
            ) && match job.actual_exec_ns {
                Some(ns) => after.progress().remaining_of(job.id.0) == ns,
                None => forall|k: int| #[trigger]
                    is_first_answered(task, view.devices, d, k) ==> is_work(
                        task,
                        task.affinity@[k],
                        after.progress().remaining_of(job.id.0),
                    ),
            },
        view.compatible_with(task).len() > 0 ==> match job.dag_provenance {
            Some(prov) => after.stages().contains_key(job.id.0) && after.stages()[job.id.0]
                == prov.node.0,
            None => !after.stages().contains_key(job.id.0),
        },
{
    let ids = view.compatible_with(task);
    conduct::lemma_least_loaded(view, ids);
    if let Some(d) = placement::least_loaded(view, ids, true) {
        conduct::law_preemption_is_as_modelled(view, d, false);
        assert(after.progress().remaining.contains_key(job.id.0));
        lemma_greatest_wcet(task.exec_times@);
        lemma_answered(task.affinity@, view.devices, d);
        assert forall|k: int| #[trigger]
            is_first_answered(task, view.devices, d, k) implies task.affinity@[k]
            == cpedf::type_of(view, task, d) by {
            let m = choose|m: int|
                0 <= m < task.affinity@.len() && #[trigger] task.affinity@[m] == cpedf::type_of(
                    view,
                    task,
                    d,
                ) && answers(view.devices, d, task.affinity@[m]) && (forall|j: int|
                    0 <= j < m ==> !answers(view.devices, d, #[trigger] task.affinity@[j]));
            assert(answers(view.devices, d, task.affinity@[k]));
        }
        assert(conduct::is_least_loaded(view, ids, d));
    }
}

/// Critical-path EDF runs the waiting job that comes first by slack, deadline,
/// depth, release and id, and lets it take over at a preemption point of a
/// device that has such, exactly where it comes before the running one.
pub proof fn law_critical_path_serves_the_least_slack(
    mind: CpEdfScheduler,
    job: &Job,
    d: DeviceId,
    view: Sight,
    actions: Seq<Action>,
    after: CpEdfScheduler,
)
    ensures
        mind.answers_completion(job, d, view, actions, &after) || mind.answers_idle(
            d,
            view,
            actions,
            &after,
        ) ==> conduct::serves_first(
            actions,
            view.waiting_at(d),
            d,
            slack_order(after, view.now),
        ),
        mind.answers_point(d, job, view, actions, &after) ==> match view.running_at(d) {
            Some(r) => conduct::takes_over(
                actions,
                view.waiting_at(d),
                d,
                job.id,
                slack_order(after, view.now),
                |q: QueuedJobInfo|
                    interruptible(view, d, true) && ahead(
                        by_slack(
                            after,
                            view.now,
                            q.job_id.0,
                            q.absolute_deadline,
                            q.release_time,
                        ),
                        by_slack(
                            after,
                            view.now,
                            r.job_id.0,
                            r.absolute_deadline,
                            r.release_time,
                        ),
                    ),
            ),
            None => only(actions, Action::NoOp),
        },
{
    if mind.answers_completion(job, d, view, actions, &after) || mind.answers_idle(
        d,
        view,
        actions,
        &after,
    ) || mind.answers_point(d, job, view, actions, &after) {
        lemma_best_slack(view.waiting_at(d), after, view.now);
        conduct::law_preemption_is_as_modelled(view, d, true);
    }
}

/// Critical-path EDF counts the work left of each other job at every answer,
/// and keeps the stages of the jobs that it still sees. A job that completes
/// is forgotten.
pub proof fn law_critical_path_counts_work(
    mind: CpEdfScheduler,
    job: &Job,
    task: &Task,
    d: DeviceId,
    level: CriticalityLevel,
    view: Sight,
    actions: Seq<Action>,
    after: CpEdfScheduler,
    id: u64,
)
    ensures
        (mind.answers_arrival(job, task, view, actions, &after) || mind.answers_completion(
            job,
            d,
            view,
            actions,
            &after,
        )) && id != job.id.0 ==> counts(mind.progress(), view, after.progress(), id)
            && keeps_stage(mind, view, after, id),
        mind.answers_completion(job, d, view, actions, &after) ==> after.progress().remaining_of(
            job.id.0,
        ) == 0 && !after.progress().elapsed.contains_key(job.id.0)
            && !after.stages().contains_key(job.id.0),
        mind.answers_point(d, job, view, actions, &after) || mind.answers_change(
            level,
            job,
            view,
            actions,
            &after,
        ) || mind.answers_idle(d, view, actions, &after) ==> counts(
            mind.progress(),
            view,
            after.progress(),
            id,
        ) && keeps_stage(mind, view, after, id),
{
    law_observing_counts_work(mind.progress(), view, id);
    lemma_visible(view, id);
}

/// Whether the stage of a job is kept while a view shows the job.
pub open spec fn keeps_stage(
    mind: CpEdfScheduler,
    view: Sight,
    after: CpEdfScheduler,
    id: u64,
) -> bool {
    &&& after.stages().contains_key(id) <==> mind.stages().contains_key(id) && !(not_running(
        view,
        id,
    ) && not_waiting(view, id))
    &&& after.stages().contains_key(id) ==> after.stages()[id] == mind.stages()[id]
}

proof fn lemma_visible(view: Sight, id: u64)
    ensures
        tables::runs(view, id) || tables::waits(view, id) <==> !(not_running(view, id)
            && not_waiting(view, id)),
{
    let running = tables::running_list(view.running_jobs);
    let waiting = tables::waiting_list(view.ready_queues);
    if tables::runs(view, id) {
        let k = choose|k: int| 0 <= k < running.len() && (#[trigger] running[k]).job_id.0 == id;
        assert(running.contains(running[k]));
        modes::lemma_running_list(view, running[k]);
        let i = choose|i: int|
            0 <= i < view.running_jobs.len() && (#[trigger] view.running_jobs[i]).1 == Some(
                running[k],
            );
        assert(view.running_jobs[i].1 == Some(running[k]));
    }
    if tables::waits(view, id) {
        let k = choose|k: int| 0 <= k < waiting.len() && (#[trigger] waiting[k]).job_id.0 == id;
        assert(waiting.contains(waiting[k]));
        modes::lemma_waiting_list(view, waiting[k]);
    }
    if !not_running(view, id) {
        let i = choose|i: int|
            0 <= i < view.running_jobs.len() && !((#[trigger] view.running_jobs[i]).1 matches Some(
                s,
            ) ==> s.job_id.0 != id);
        let r = view.running_jobs[i].1->0;
        modes::lemma_running_list(view, r);
        let k = choose|k: int| 0 <= k < running.len() && running[k] == r;
        assert(running[k].job_id.0 == id);
    }
    if !not_waiting(view, id) {
        let (i, k) = choose|i: int, k: int|
            0 <= i < view.ready_queues.len() && 0 <= k < view.ready_queues[i].1.len() && (
            #[trigger] view.ready_queues[i].1[k]).job_id.0 == id;
        let q = view.ready_queues[i].1[k];
        modes::lemma_waiting_list(view, q);
        let n = choose|n: int| 0 <= n < waiting.len() && waiting[n] == q;
        assert(waiting[n].job_id.0 == id);
    }
}

} // verus!

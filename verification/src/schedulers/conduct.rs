//! What the algorithms do, said of their answers alone: which job they let run
//! where, in terms of the deadlines, priorities and queues that a view shows.

use crate::device::{DeviceConfig, PreemptionModel};
use crate::ids::{DeviceId, JobId};
use crate::job::Job;
use crate::scheduler;
use crate::scheduler::{Action, QueuedJobInfo, RunningJobInfo, Scheduler, Sight};
use crate::schedulers::{llf, placement, rank};
use crate::schedulers::{EdfScheduler, FixedPriorityScheduler, LlfScheduler, XSchedScheduler};
use crate::select;
use crate::select::Key;
use crate::task::{CriticalityLevel, DeviceType, Task};
use vstd::prelude::*;

verus! {

/// Numbers that are compared one after the other.
pub type Order = (int, int, int, int, int, int);

/// Whether numbers come before others: the first ones that differ decide.
pub open spec fn ahead(a: Order, b: Order) -> bool {
    a.0 < b.0 || (a.0 == b.0 && (a.1 < b.1 || (a.1 == b.1 && (a.2 < b.2 || (a.2 == b.2 && (a.3
        < b.3 || (a.3 == b.3 && (a.4 < b.4 || (a.4 == b.4 && a.5 < b.5)))))))))
}

/// High criticality comes before low.
pub open spec fn urgency(level: CriticalityLevel) -> int {
    if level is Hi {
        0
    } else {
        1
    }
}

/// Criticality, deadline, priority, release and id.
pub open spec fn by_criticality(
    level: CriticalityLevel,
    deadline: u64,
    priority: u32,
    release: u64,
    id: JobId,
) -> Order {
    (urgency(level), deadline as int, priority as int, release as int, id.0 as int, 0)
}

/// The place of an arriving job by criticality.
pub open spec fn arriving(job: &Job, task: &Task) -> Order {
    by_criticality(
        task.criticality,
        job.absolute_deadline,
        job.effective_priority,
        job.release_time,
        job.id,
    )
}

/// The place of a running job by criticality.
pub open spec fn of_running(r: RunningJobInfo) -> Order {
    by_criticality(r.criticality, r.absolute_deadline, r.priority, r.release_time, r.job_id)
}

/// The place of a waiting job by criticality.
pub open spec fn of_waiting(q: QueuedJobInfo) -> Order {
    by_criticality(q.criticality, q.absolute_deadline, q.priority, q.release_time, q.job_id)
}

/// Whether actions are a single one.
pub open spec fn only(actions: Seq<Action>, action: Action) -> bool {
    actions.len() == 1 && actions[0] == action
}

/// Whether a waiting job is one that no job of its queue is ahead of.
pub open spec fn is_first(
    queue: Seq<QueuedJobInfo>,
    i: int,
    order: spec_fn(QueuedJobInfo) -> Order,
) -> bool {
    &&& 0 <= i < queue.len()
    &&& forall|j: int| 0 <= j < queue.len() ==> !ahead(order(#[trigger] queue[j]), order(queue[i]))
}

/// Whether a job is chosen from a queue: the first one where there is one.
pub open spec fn chosen(
    queue: Seq<QueuedJobInfo>,
    next: Option<QueuedJobInfo>,
    order: spec_fn(QueuedJobInfo) -> Order,
) -> bool {
    match next {
        Some(w) => exists|i: int| #[trigger] is_first(queue, i, order) && queue[i] == w,
        None => queue.len() == 0,
    }
}

/// Waiting jobs by criticality.
pub open spec fn critical_order() -> spec_fn(QueuedJobInfo) -> Order {
    |q: QueuedJobInfo| of_waiting(q)
}

/// Waiting jobs by deadline, release and id.
pub open spec fn deadline_order() -> spec_fn(QueuedJobInfo) -> Order {
    |q: QueuedJobInfo|
        (q.absolute_deadline as int, q.release_time as int, q.job_id.0 as int, 0, 0, 0)
}

/// Waiting jobs by criticality, priority, release and id.
pub open spec fn priority_order() -> spec_fn(QueuedJobInfo) -> Order {
    |q: QueuedJobInfo|
        (
            urgency(q.criticality),
            q.priority as int,
            q.release_time as int,
            q.job_id.0 as int,
            0,
            0,
        )
}

/// Whether actions dispatch the first waiting job, or do nothing where none
/// waits.
pub open spec fn serves_first(
    actions: Seq<Action>,
    queue: Seq<QueuedJobInfo>,
    d: DeviceId,
    order: spec_fn(QueuedJobInfo) -> Order,
) -> bool {
    if queue.len() == 0 {
        only(actions, Action::NoOp)
    } else {
        exists|i: int| #[trigger]
            is_first(queue, i, order) && only(
                actions,
                Action::Dispatch { job_id: queue[i].job_id, device_id: d },
            )
    }
}

/// Whether actions let the first waiting job take over exactly where it may.
pub open spec fn takes_over(
    actions: Seq<Action>,
    queue: Seq<QueuedJobInfo>,
    d: DeviceId,
    victim: JobId,
    order: spec_fn(QueuedJobInfo) -> Order,
    may: spec_fn(QueuedJobInfo) -> bool,
) -> bool {
    if queue.len() == 0 {
        only(actions, Action::NoOp)
    } else {
        exists|i: int| #[trigger]
            is_first(queue, i, order) && if may(queue[i]) {
                only(actions, Action::Preempt { victim, by: queue[i].job_id, device_id: d })
            } else {
                only(actions, Action::NoOp)
            }
    }
}

/// Whether an arriving job runs on an idle device, preempts the running job of
/// a busy one exactly where it may, and waits there otherwise.
pub open spec fn joins(
    actions: Seq<Action>,
    id: JobId,
    d: DeviceId,
    running: Option<RunningJobInfo>,
    may: spec_fn(RunningJobInfo) -> bool,
) -> bool {
    match running {
        None => only(actions, Action::Dispatch { job_id: id, device_id: d }),
        Some(r) => if may(r) {
            only(actions, Action::Preempt { victim: r.job_id, by: id, device_id: d })
        } else {
            only(actions, Action::Enqueue { job_id: id, device_id: d })
        },
    }
}

/// How loaded a device is: busy after idle, then by the length of the queue.
pub open spec fn load(view: Sight, d: DeviceId) -> (int, int) {
    (
        if view.running_at(d) is Some {
            1
        } else {
            0
        },
        view.waiting_at(d).len() as int,
    )
}

/// Whether a device of a list is one than which none is less loaded; the
/// lowest id counts among equals.
pub open spec fn is_least_loaded(view: Sight, ids: Seq<DeviceId>, d: DeviceId) -> bool {
    &&& ids.contains(d)
    &&& forall|k: int|
        0 <= k < ids.len() ==> !ahead(
            (load(view, #[trigger] ids[k]).0, load(view, ids[k]).1, ids[k].0 as int, 0, 0, 0),
            (load(view, d).0, load(view, d).1, d.0 as int, 0, 0, 0),
        )
}

/// Whether a place in a list of devices is the first one than whose none is
/// less loaded.
pub open spec fn is_first_least_loaded(view: Sight, ids: Seq<DeviceId>, n: int) -> bool {
    &&& 0 <= n < ids.len()
    &&& forall|k: int|
        0 <= k < ids.len() ==> !ahead(
            (load(view, #[trigger] ids[k]).0, load(view, ids[k]).1, k, 0, 0, 0),
            (load(view, ids[n]).0, load(view, ids[n]).1, n, 0, 0, 0),
        )
}

/// Whether a device has the shortest queue of a list; the lowest id counts
/// among equals.
pub open spec fn is_shortest(view: Sight, ids: Seq<DeviceId>, d: DeviceId) -> bool {
    &&& ids.contains(d)
    &&& forall|k: int|
        0 <= k < ids.len() ==> !ahead(
            (view.waiting_at(#[trigger] ids[k]).len() as int, ids[k].0 as int, 0, 0, 0, 0),
            (view.waiting_at(d).len() as int, d.0 as int, 0, 0, 0, 0),
        )
}

/// Whether queues are no longer than a program can hold.
pub open spec fn held(view: Sight) -> bool {
    forall|i: int|
        0 <= i < view.ready_queues.len() ==> (#[trigger] view.ready_queues[i]).1.len()
            <= usize::MAX
}

/// Whether every device of a list runs a job.
pub open spec fn all_busy(view: Sight, ids: Seq<DeviceId>) -> bool {
    forall|k: int| 0 <= k < ids.len() ==> view.running_at(#[trigger] ids[k]) is Some
}

/// Whether a device lets a running job be preempted: always where it is fully
/// preemptive, at preemption points where it has such, and never otherwise.
pub open spec fn interruptible(view: Sight, d: DeviceId, at_point: bool) -> bool {
    match view.device_at(d) {
        Some(device) => match device.preemption {
            PreemptionModel::FullyPreemptive => true,
            PreemptionModel::LimitedPreemptive { .. } => at_point,
            PreemptionModel::InterruptLevel { .. } => at_point,
            PreemptionModel::NonPreemptive { .. } => false,
        },
        None => false,
    }
}

/// Keys are compared one component after the other.
pub proof fn law_keys_compare_in_turn(a: Key, b: Key)
    ensures
        a.less(b) <==> ahead(
            (a.k0 as int, a.k1 as int, a.k2 as int, a.k3 as int, a.k4 as int, a.k5 as int),
            (b.k0 as int, b.k1 as int, b.k2 as int, b.k3 as int, b.k4 as int, b.k5 as int),
        ),
{
}

/// What a view says of a device is what its first entry for the device holds.
pub proof fn law_first_entries_count(view: Sight, d: DeviceId, i: int)
    ensures
        0 <= i < view.running_jobs.len() && view.running_jobs[i].0 == d && (forall|j: int|
            0 <= j < i ==> (#[trigger] view.running_jobs[j]).0 != d) ==> view.running_at(d)
            == view.running_jobs[i].1,
        (forall|j: int|
            0 <= j < view.running_jobs.len() ==> (#[trigger] view.running_jobs[j]).0 != d)
            ==> view.running_at(d) is None,
        0 <= i < view.ready_queues.len() && view.ready_queues[i].0 == d && (forall|j: int|
            0 <= j < i ==> (#[trigger] view.ready_queues[j]).0 != d) ==> view.waiting_at(d)
            == view.ready_queues[i].1,
        (forall|j: int|
            0 <= j < view.ready_queues.len() ==> (#[trigger] view.ready_queues[j]).0 != d)
            ==> view.waiting_at(d).len() == 0,
        0 <= i < view.devices.len() && view.devices[i].id == d && (forall|j: int|
            0 <= j < i ==> (#[trigger] view.devices[j]).id != d) ==> view.device_at(d) == Some(
            view.devices[i],
        ),
        (forall|j: int| 0 <= j < view.devices.len() ==> (#[trigger] view.devices[j]).id != d)
            ==> view.device_at(d) is None,
{
    if 0 <= i < view.running_jobs.len() && view.running_jobs[i].0 == d && (forall|j: int|
        0 <= j < i ==> (#[trigger] view.running_jobs[j]).0 != d) {
        assert(scheduler::is_first_entry(view.running_jobs, d, i));
        let k = choose|k: int| scheduler::is_first_entry(view.running_jobs, d, k);
        assert(view.running_jobs[k].0 == d);
    }
    if 0 <= i < view.ready_queues.len() && view.ready_queues[i].0 == d && (forall|j: int|
        0 <= j < i ==> (#[trigger] view.ready_queues[j]).0 != d) {
        assert(scheduler::is_first_entry(view.ready_queues, d, i));
        let k = choose|k: int| scheduler::is_first_entry(view.ready_queues, d, k);
        assert(view.ready_queues[k].0 == d);
    }
    if 0 <= i < view.devices.len() && view.devices[i].id == d && (forall|j: int|
        0 <= j < i ==> (#[trigger] view.devices[j]).id != d) {
        assert(view.is_device_index(d, i));
        let k = choose|k: int| view.is_device_index(d, k);
        assert(view.devices[k].id == d);
    }
}

proof fn lemma_ids_of_type(devices: Seq<DeviceConfig>, dt: DeviceType, d: DeviceId)
    ensures
        scheduler::ids_of_type(devices, dt).contains(d) <==> exists|i: int|
            0 <= i < devices.len() && (#[trigger] devices[i]).id == d && devices[i].device_type
                == dt,
    decreases devices.len(),
{
    if devices.len() > 0 {
        let rest = devices.drop_last();
        lemma_ids_of_type(rest, dt, d);
        let ids = scheduler::ids_of_type(devices, dt);
        let before = scheduler::ids_of_type(rest, dt);
        if before.contains(d) {
            let k = choose|k: int| 0 <= k < before.len() && before[k] == d;
            assert(ids[k] == d);
            let i = choose|i: int|
                0 <= i < rest.len() && (#[trigger] rest[i]).id == d && rest[i].device_type == dt;
            assert(devices[i].id == d);
        }
        if ids.contains(d) && !before.contains(d) {
            let k = choose|k: int| 0 <= k < ids.len() && ids[k] == d;
            assert(k == before.len());
            assert(devices[devices.len() - 1].id == d);
        }
        if exists|i: int|
            0 <= i < devices.len() && (#[trigger] devices[i]).id == d && devices[i].device_type
                == dt {
            let i = choose|i: int|
                0 <= i < devices.len() && (#[trigger] devices[i]).id == d && devices[i].device_type
                    == dt;
            if i < rest.len() {
                assert(rest[i].id == d);
            } else {
                assert(ids[before.len() as int] == d);
            }
        }
    }
}

pub(crate) proof fn lemma_compatible_ids(affinity: Seq<DeviceType>, devices: Seq<DeviceConfig>, d: DeviceId)
    ensures
        scheduler::compatible_ids(affinity, devices).contains(d) <==> exists|i: int|
            0 <= i < devices.len() && (#[trigger] devices[i]).id == d && affinity.contains(
                devices[i].device_type,
            ),
    decreases affinity.len(),
{
    if affinity.len() > 0 {
        let rest = affinity.drop_last();
        let last = affinity.last();
        lemma_compatible_ids(rest, devices, d);
        lemma_ids_of_type(devices, last, d);
        let before = scheduler::compatible_ids(rest, devices);
        let more = scheduler::ids_of_type(devices, last);
        let all = scheduler::compatible_ids(affinity, devices);
        assert forall|dt: DeviceType| #[trigger] affinity.contains(dt) <==> rest.contains(dt) || dt
            == last by {
            if rest.contains(dt) {
                let k = choose|k: int| 0 <= k < rest.len() && rest[k] == dt;
                assert(affinity[k] == dt);
            }
            if dt == last {
                assert(affinity[affinity.len() - 1] == dt);
            }
            if affinity.contains(dt) && dt != last {
                let k = choose|k: int| 0 <= k < affinity.len() && affinity[k] == dt;
                assert(rest[k] == dt);
            }
        }
        if all.contains(d) {
            let k = choose|k: int| 0 <= k < all.len() && all[k] == d;
            if k < before.len() {
                assert(before[k] == d);
            } else {
                assert(more[k - before.len()] == d);
            }
        }
        if before.contains(d) {
            let k = choose|k: int| 0 <= k < before.len() && before[k] == d;
            assert(all[k] == d);
        }
        if more.contains(d) {
            let k = choose|k: int| 0 <= k < more.len() && more[k] == d;
            assert(all[before.len() + k] == d);
        }
    }
}

/// The devices that a task can run on are those of the types it asks for.
pub proof fn law_compatible_devices(view: Sight, task: &Task, d: DeviceId)
    ensures
        view.compatible_with(task).contains(d) <==> exists|i: int|
            0 <= i < view.devices.len() && (#[trigger] view.devices[i]).id == d
                && task.affinity@.contains(view.devices[i].device_type),
{
    lemma_compatible_ids(task.affinity@, view.devices, d);
}

/// Schedulers take a device to be interruptible where its preemption model
/// says so.
pub proof fn law_preemption_is_as_modelled(view: Sight, d: DeviceId, at_point: bool)
    ensures
        placement::may_preempt(view, d, at_point) == interruptible(view, d, at_point),
{
}

pub(crate) proof fn lemma_held(view: Sight, d: DeviceId)
    requires
        held(view),
    ensures
        view.waiting_at(d).len() <= usize::MAX,
{
    if exists|i: int| scheduler::is_first_entry(view.ready_queues, d, i) {
        let i = choose|i: int| scheduler::is_first_entry(view.ready_queues, d, i);
        assert(view.ready_queues[i].1.len() <= usize::MAX);
    }
}

pub(crate) proof fn lemma_least_loaded(view: Sight, ids: Seq<DeviceId>)
    requires
        held(view),
    ensures
        match placement::least_loaded(view, ids, true) {
            Some(d) => is_least_loaded(view, ids, d),
            None => ids.len() == 0,
        },
{
    let keys = placement::load_keys(view, ids, true);
    select::law_least_is_first_minimum(keys);
    if let Some(at) = select::least(keys) {
        let d = ids[at];
        assert forall|k: int| 0 <= k < ids.len() implies !ahead(
            (load(view, #[trigger] ids[k]).0, load(view, ids[k]).1, ids[k].0 as int, 0, 0, 0),
            (load(view, d).0, load(view, d).1, d.0 as int, 0, 0, 0),
        ) by {
            lemma_held(view, ids[k]);
            lemma_held(view, d);
            assert(!keys[k].less(keys[at]));
            law_keys_compare_in_turn(keys[k], keys[at]);
        }
    }
}

pub(crate) proof fn lemma_shortest(view: Sight, ids: Seq<DeviceId>)
    requires
        held(view),
    ensures
        match placement::shortest_queue(view, ids) {
            Some(d) => is_shortest(view, ids, d),
            None => ids.len() == 0,
        },
{
    let keys = placement::queue_keys(view, ids);
    select::law_least_is_first_minimum(keys);
    if let Some(at) = select::least(keys) {
        let d = ids[at];
        assert forall|k: int| 0 <= k < ids.len() implies !ahead(
            (view.waiting_at(#[trigger] ids[k]).len() as int, ids[k].0 as int, 0, 0, 0, 0),
            (view.waiting_at(d).len() as int, d.0 as int, 0, 0, 0, 0),
        ) by {
            lemma_held(view, ids[k]);
            lemma_held(view, d);
            assert(!keys[k].less(keys[at]));
        }
    }
}

pub(crate) proof fn lemma_best_critical(queue: Seq<QueuedJobInfo>)
    ensures
        chosen(queue, rank::best_critical(queue), critical_order()),
{
    let keys = rank::critical_keys(queue);
    let order = critical_order();
    select::law_least_is_first_minimum(keys);
    if let Some(at) = select::least(keys) {
        assert forall|j: int| 0 <= j < queue.len() implies !ahead(
            order(#[trigger] queue[j]),
            order(queue[at]),
        ) by {
            assert(!keys[j].less(keys[at]));
        }
        assert(is_first(queue, at, order));
    }
}

pub(crate) proof fn lemma_best_deadline(queue: Seq<QueuedJobInfo>)
    ensures
        chosen(queue, rank::best_deadline(queue), deadline_order()),
{
    let keys = rank::deadline_keys(queue);
    let order = deadline_order();
    select::law_least_is_first_minimum(keys);
    if let Some(at) = select::least(keys) {
        assert forall|j: int| 0 <= j < queue.len() implies !ahead(
            order(#[trigger] queue[j]),
            order(queue[at]),
        ) by {
            assert(!keys[j].less(keys[at]));
        }
        assert(is_first(queue, at, order));
    }
}

pub(crate) proof fn lemma_best_priority(queue: Seq<QueuedJobInfo>)
    ensures
        chosen(queue, rank::best_priority(queue), priority_order()),
{
    let keys = rank::priority_keys(queue);
    let order = priority_order();
    select::law_least_is_first_minimum(keys);
    if let Some(at) = select::least(keys) {
        assert forall|j: int| 0 <= j < queue.len() implies !ahead(
            order(#[trigger] queue[j]),
            order(queue[at]),
        ) by {
            assert(!keys[j].less(keys[at]));
        }
        assert(is_first(queue, at, order));
    }
}

/// A running job under least laxity first: its laxity is the time to its
/// deadline that is not needed for its remaining work.
pub open spec fn laxity(now: u64, deadline: u64, remaining: u64) -> int {
    deadline as int - now as int - remaining as int
}

/// Under least laxity first an arriving job goes to the least loaded device
/// that it can run on. Where that device runs a job, the arriving job preempts
/// it exactly where its own laxity is smaller. Its remaining work is its
/// execution time where that is known, else the smallest of its task.
pub proof fn law_least_laxity_preempts_on_arrival(
    mind: LlfScheduler,
    job: &Job,
    task: &Task,
    view: Sight,
    actions: Seq<Action>,
    after: LlfScheduler,
)
    requires
        held(view),
        mind.answers_arrival(job, task, view, actions, &after),
    ensures
        match job.actual_exec_ns {
            Some(ns) => after.progress().remaining_of(job.id.0) == ns,
            None => {
                &&& forall|k: int|
                    0 <= k < task.exec_times@.len() ==> after.progress().remaining_of(job.id.0)
                        <= (#[trigger] task.exec_times@[k]).1.worst()
                &&& task.exec_times@.len() > 0 ==> exists|k: int|
                    0 <= k < task.exec_times@.len() && after.progress().remaining_of(job.id.0) == (
                    #[trigger] task.exec_times@[k]).1.worst()
            },
        },
        view.compatible_with(task).len() == 0 ==> only(actions, Action::NoOp),
        view.compatible_with(task).len() > 0 ==> exists|d: DeviceId| #[trigger]
            is_least_loaded(view, view.compatible_with(task), d) && joins(
                actions,
                job.id,
                d,
                view.running_at(d),
                |r: RunningJobInfo|
                    laxity(
                        view.now,
                        job.absolute_deadline,
                        after.progress().remaining_of(job.id.0),
                    ) < laxity(
                        view.now,
                        r.absolute_deadline,
                        after.progress().remaining_of(r.job_id.0),
                    ),
            ),
{
    lemma_least_loaded(view, view.compatible_with(task));
    lemma_least_wcet(task.exec_times@);
    assert(after.progress().remaining.contains_key(job.id.0));
}

proof fn lemma_least_wcet(times: Seq<(DeviceType, crate::task::ExecutionTimeModel)>)
    ensures
        forall|k: int|
            0 <= k < times.len() ==> llf::least_wcet(times) <= (#[trigger] times[k]).1.worst(),
        times.len() > 0 ==> exists|k: int|
            0 <= k < times.len() && llf::least_wcet(times) == (#[trigger] times[k]).1.worst(),
    decreases times.len(),
{
    if times.len() == 1 {
        assert(times[0].1.worst() == llf::least_wcet(times));
    } else if times.len() > 1 {
        let rest = times.drop_last();
        lemma_least_wcet(rest);
        let k = choose|k: int|
            0 <= k < rest.len() && llf::least_wcet(rest) == (#[trigger] rest[k]).1.worst();
        assert(times[k] == rest[k]);
        assert forall|j: int| 0 <= j < times.len() implies llf::least_wcet(times) <= (
        #[trigger] times[j]).1.worst() by {
            if j < rest.len() {
                assert(times[j] == rest[j]);
            }
        }
        let n = times.len() - 1;
        assert(times[n] == times.last());
    }
}

/// Waiting jobs by laxity, deadline, release and id.
pub open spec fn laxity_order(
    after: LlfScheduler,
    now: u64,
) -> spec_fn(QueuedJobInfo) -> Order {
    |q: QueuedJobInfo|
        (
            laxity(now, q.absolute_deadline, after.progress().remaining_of(q.job_id.0)),
            q.absolute_deadline as int,
            q.release_time as int,
            q.job_id.0 as int,
            0,
            0,
        )
}

proof fn lemma_best_laxity(queue: Seq<QueuedJobInfo>, after: LlfScheduler, now: u64)
    ensures
        chosen(
            queue,
            llf::best_laxity(queue, after.progress(), now),
            laxity_order(after, now),
        ),
{
    let keys = llf::waiting_keys(queue, after.progress(), now);
    let order = laxity_order(after, now);
    select::law_least_is_first_minimum(keys);
    if let Some(at) = select::least(keys) {
        assert forall|j: int| 0 <= j < queue.len() implies !ahead(
            order(#[trigger] queue[j]),
            order(queue[at]),
        ) by {
            assert(!keys[j].less(keys[at]));
        }
        assert(is_first(queue, at, order));
    }
}

/// Under least laxity first a device that completed a job runs the waiting job
/// with the least laxity.
pub proof fn law_least_laxity_runs_next(
    mind: LlfScheduler,
    job: &Job,
    d: DeviceId,
    view: Sight,
    actions: Seq<Action>,
    after: LlfScheduler,
)
    requires
        mind.answers_completion(job, d, view, actions, &after),
    ensures
        serves_first(actions, view.waiting_at(d), d, laxity_order(after, view.now)),
{
    lemma_best_laxity(view.waiting_at(d), after, view.now);
}

/// At a preemption point the waiting job with the least laxity takes over
/// exactly where it has less of it than the running job.
pub proof fn law_least_laxity_takes_over(
    mind: LlfScheduler,
    d: DeviceId,
    running: &Job,
    view: Sight,
    actions: Seq<Action>,
    after: LlfScheduler,
)
    requires
        mind.answers_point(d, running, view, actions, &after),
    ensures
        match view.running_at(d) {
            Some(r) => takes_over(
                actions,
                view.waiting_at(d),
                d,
                running.id,
                laxity_order(after, view.now),
                |q: QueuedJobInfo|
                    laxity(
                        view.now,
                        q.absolute_deadline,
                        after.progress().remaining_of(q.job_id.0),
                    ) < laxity(
                        view.now,
                        r.absolute_deadline,
                        after.progress().remaining_of(r.job_id.0),
                    ),
            ),
            None => only(actions, Action::NoOp),
        },
{
    lemma_best_laxity(view.waiting_at(d), after, view.now);
}

/// Whether a job that waits for a device has less laxity than the job that
/// runs there.
pub open spec fn is_slacker(
    view: Sight,
    after: LlfScheduler,
    entry: (DeviceId, Option<RunningJobInfo>),
    w: QueuedJobInfo,
) -> bool {
    &&& entry.1 is Some
    &&& view.waiting_at(entry.0).contains(w)
    &&& laxity(
        view.now,
        w.absolute_deadline,
        after.progress().remaining_of(w.job_id.0),
    ) < laxity(
        view.now,
        entry.1->0.absolute_deadline,
        after.progress().remaining_of(entry.1->0.job_id.0),
    )
}

/// Whether an action preempts the job of an entry for a waiting job of less
/// laxity than which none has less.
pub open spec fn relieves(
    view: Sight,
    after: LlfScheduler,
    entry: (DeviceId, Option<RunningJobInfo>),
    action: Action,
) -> bool {
    exists|i: int| #[trigger]
        is_first(view.waiting_at(entry.0), i, laxity_order(after, view.now)) && is_slacker(
            view,
            after,
            entry,
            view.waiting_at(entry.0)[i],
        ) && action == (Action::Preempt {
            victim: entry.1->0.job_id,
            by: view.waiting_at(entry.0)[i].job_id,
            device_id: entry.0,
        })
}

proof fn lemma_reevaluated(
    entries: Seq<(DeviceId, Option<RunningJobInfo>)>,
    view: Sight,
    after: LlfScheduler,
)
    ensures
        forall|k: int|
            0 <= k < llf::reevaluated(entries, view, after.progress()).len() ==> exists|e: int|
                0 <= e < entries.len() && relieves(
                    view,
                    after,
                    #[trigger] entries[e],
                    #[trigger] llf::reevaluated(entries, view, after.progress())[k],
                ),
        forall|e: int, w: QueuedJobInfo|
            0 <= e < entries.len() && #[trigger] is_slacker(view, after, entries[e], w)
                ==> exists|k: int|
                0 <= k < llf::reevaluated(entries, view, after.progress()).len() && relieves(
                    view,
                    after,
                    entries[e],
                    #[trigger] llf::reevaluated(entries, view, after.progress())[k],
                ),
    decreases entries.len(),
{
    if entries.len() > 0 {
        let rest = entries.drop_last();
        let n = rest.len() as int;
        lemma_reevaluated(rest, view, after);
        let before = llf::reevaluated(rest, view, after.progress());
        let all = llf::reevaluated(entries, view, after.progress());
        let d = entries[n].0;
        let queue = view.waiting_at(d);
        lemma_best_laxity(queue, after, view.now);
        let best = llf::best_laxity(queue, after.progress(), view.now);
        if all.len() > before.len() {
            let i = choose|i: int| #[trigger]
                is_first(queue, i, laxity_order(after, view.now)) && queue[i] == best->0;
            assert(queue.contains(queue[i]));
            assert(is_slacker(view, after, entries[n], queue[i]));
            assert(relieves(view, after, entries[n], all[before.len() as int]));
        }
        assert forall|k: int| 0 <= k < all.len() implies exists|e: int|
            0 <= e < entries.len() && relieves(
                view,
                after,
                #[trigger] entries[e],
                #[trigger] all[k],
            ) by {
            if k < before.len() {
                assert(all[k] == before[k]);
                let e = choose|e: int|
                    0 <= e < rest.len() && relieves(view, after, #[trigger] rest[e], before[k]);
                assert(entries[e] == rest[e]);
            } else {
                assert(relieves(view, after, entries[n], all[k]));
            }
        }
        assert forall|e: int, w: QueuedJobInfo|
            0 <= e < entries.len() && #[trigger] is_slacker(
                view,
                after,
                entries[e],
                w,
            ) implies exists|k: int|
            0 <= k < all.len() && relieves(view, after, entries[e], #[trigger] all[k]) by {
            if e < n {
                assert(entries[e] == rest[e]);
                assert(is_slacker(view, after, rest[e], w));
                let k = choose|k: int|
                    0 <= k < before.len() && relieves(view, after, rest[e], #[trigger] before[k]);
                assert(all[k] == before[k]);
            } else {
                let j = choose|j: int| 0 <= j < queue.len() && queue[j] == w;
                let i = choose|i: int| #[trigger]
                    is_first(queue, i, laxity_order(after, view.now)) && queue[i] == best->0;
                let order = laxity_order(after, view.now);
                assert(!ahead(order(queue[j]), order(queue[i])));
                assert(all.len() == before.len() + 1);
                assert(relieves(view, after, entries[n], all[before.len() as int]));
            }
        }
    }
}

/// A reevaluation preempts every running job for which one of less laxity
/// waits, by the waiting job with the least, and no other one.
pub proof fn law_reevaluation_follows_laxity(
    mind: LlfScheduler,
    trigger: scheduler::ReevaluationTrigger,
    view: Sight,
    actions: Seq<Action>,
    after: LlfScheduler,
)
    requires
        mind.answers_reevaluation(trigger, view, actions, &after),
    ensures
        forall|e: int, w: QueuedJobInfo|
            0 <= e < view.running_jobs.len() && #[trigger] is_slacker(
                view,
                after,
                view.running_jobs[e],
                w,
            ) ==> exists|k: int|
                0 <= k < actions.len() && relieves(
                    view,
                    after,
                    view.running_jobs[e],
                    #[trigger] actions[k],
                ),
        forall|k: int|
            0 <= k < actions.len() ==> (#[trigger] actions[k]) is NoOp || exists|e: int|
                0 <= e < view.running_jobs.len() && relieves(
                    view,
                    after,
                    #[trigger] view.running_jobs[e],
                    actions[k],
                ),
{
    lemma_reevaluated(view.running_jobs, view, after);
}

/// Under earliest deadline first an arriving job goes to a device that it can
/// run on and than which none is less loaded, and preempts the job that runs
/// there exactly where its own deadline is earlier.
pub proof fn law_edf_arrival(
    mind: EdfScheduler,
    job: &Job,
    task: &Task,
    view: Sight,
    actions: Seq<Action>,
    after: EdfScheduler,
)
    requires
        held(view),
        mind.answers_arrival(job, task, view, actions, &after),
    ensures
        view.compatible_with(task).len() == 0 ==> only(actions, Action::NoOp),
        view.compatible_with(task).len() > 0 ==> exists|n: int| #[trigger]
            is_first_least_loaded(view, view.compatible_with(task), n) && joins(
                actions,
                job.id,
                view.compatible_with(task)[n],
                view.running_at(view.compatible_with(task)[n]),
                |r: RunningJobInfo| job.absolute_deadline < r.absolute_deadline,
            ),
{
    let ids = view.compatible_with(task);
    let keys = placement::load_keys(view, ids, false);
    select::law_least_is_first_minimum(keys);
    if let Some(n) = select::least(keys) {
        assert forall|k: int| 0 <= k < ids.len() implies !ahead(
            (load(view, #[trigger] ids[k]).0, load(view, ids[k]).1, k, 0, 0, 0),
            (load(view, ids[n]).0, load(view, ids[n]).1, n, 0, 0, 0),
        ) by {
            lemma_held(view, ids[k]);
            lemma_held(view, ids[n]);
            assert(!keys[k].less(keys[n]));
            if k < n {
                assert(keys[n].less(keys[k]));
            }
        }
        assert(is_first_least_loaded(view, ids, n));
    }
}

/// Under earliest deadline first a free device runs the waiting job with the
/// earliest deadline, and at a preemption point that job takes over exactly
/// where its deadline is earlier than that of the running one.
pub proof fn law_edf_serves_the_earliest_deadline(
    mind: EdfScheduler,
    job: &Job,
    d: DeviceId,
    view: Sight,
    actions: Seq<Action>,
    after: EdfScheduler,
)
    ensures
        mind.answers_completion(job, d, view, actions, &after) ==> serves_first(
            actions,
            view.waiting_at(d),
            d,
            deadline_order(),
        ),
        mind.answers_idle(d, view, actions, &after) ==> serves_first(
            actions,
            view.waiting_at(d),
            d,
            deadline_order(),
        ),
        mind.answers_point(d, job, view, actions, &after) ==> takes_over(
            actions,
            view.waiting_at(d),
            d,
            job.id,
            deadline_order(),
            |q: QueuedJobInfo| q.absolute_deadline < job.absolute_deadline,
        ),
{
    lemma_best_deadline(view.waiting_at(d));
}

/// Under fixed priorities an arriving job goes to the first idle device that
/// it can run on, else to the first one, where it preempts exactly where its
/// priority is higher, which is a lower number.
pub proof fn law_fixed_priority_arrival(
    mind: FixedPriorityScheduler,
    job: &Job,
    task: &Task,
    view: Sight,
    actions: Seq<Action>,
    after: FixedPriorityScheduler,
)
    requires
        mind.answers_arrival(job, task, view, actions, &after),
    ensures
        ({
            let ids = view.compatible_with(task);
            &&& ids.len() == 0 ==> only(actions, Action::NoOp)
            &&& ids.len() > 0 && all_busy(view, ids) ==> joins(
                actions,
                job.id,
                ids[0],
                view.running_at(ids[0]),
                |r: RunningJobInfo| job.effective_priority < r.priority,
            )
            &&& forall|n: int|
                0 <= n < ids.len() && view.running_at(#[trigger] ids[n]) is None && all_busy(
                    view,
                    ids.take(n),
                ) ==> only(actions, Action::Dispatch { job_id: job.id, device_id: ids[n] })
        }),
{
    let ids = view.compatible_with(task);
    if all_busy(view, ids) {
        lemma_none_idle(view, ids);
    }
    assert forall|n: int|
        0 <= n < ids.len() && view.running_at(#[trigger] ids[n]) is None && all_busy(
            view,
            ids.take(n),
        ) implies only(actions, Action::Dispatch { job_id: job.id, device_id: ids[n] }) by {
        lemma_first_idle(view, ids, n);
    }
}

proof fn lemma_none_idle(view: Sight, ids: Seq<DeviceId>)
    requires
        all_busy(view, ids),
    ensures
        placement::idle_of(view, ids).len() == 0,
    decreases ids.len(),
{
    if ids.len() > 0 {
        let rest = ids.drop_last();
        assert forall|k: int| 0 <= k < rest.len() implies view.running_at(
            #[trigger] rest[k],
        ) is Some by {
            assert(rest[k] == ids[k]);
        }
        lemma_none_idle(view, rest);
        assert(view.running_at(ids[ids.len() - 1]) is Some);
    }
}

proof fn lemma_first_idle(view: Sight, ids: Seq<DeviceId>, n: int)
    requires
        0 <= n < ids.len(),
        view.running_at(ids[n]) is None,
        all_busy(view, ids.take(n)),
    ensures
        placement::idle_of(view, ids).len() > 0,
        placement::idle_of(view, ids)[0] == ids[n],
    decreases ids.len(),
{
    let rest = ids.drop_last();
    if n < rest.len() {
        assert(rest.take(n) =~= ids.take(n));
        assert(rest[n] == ids[n]);
        lemma_first_idle(view, rest, n);
    } else {
        assert(rest =~= ids.take(n));
        lemma_none_idle(view, rest);
    }
}

/// Under fixed priorities a free device runs the head of its queue, and at a
/// preemption point the head takes over exactly where its priority is higher.
pub proof fn law_fixed_priority_serves_the_head(
    mind: FixedPriorityScheduler,
    job: &Job,
    d: DeviceId,
    view: Sight,
    actions: Seq<Action>,
    after: FixedPriorityScheduler,
)
    ensures
        mind.answers_completion(job, d, view, actions, &after) || mind.answers_idle(
            d,
            view,
            actions,
            &after,
        ) ==> serves_head(actions, view.waiting_at(d), d),
        mind.answers_point(d, job, view, actions, &after) ==> if view.waiting_at(d).len() > 0
            && view.waiting_at(d)[0].priority < job.effective_priority {
            only(
                actions,
                Action::Preempt {
                    victim: job.id,
                    by: view.waiting_at(d)[0].job_id,
                    device_id: d,
                },
            )
        } else {
            only(actions, Action::NoOp)
        },
{
}

/// Whether actions dispatch the head of a queue, or do nothing where none
/// waits.
pub open spec fn serves_head(
    actions: Seq<Action>,
    queue: Seq<QueuedJobInfo>,
    d: DeviceId,
) -> bool {
    if queue.len() == 0 {
        only(actions, Action::NoOp)
    } else {
        only(actions, Action::Dispatch { job_id: queue[0].job_id, device_id: d })
    }
}

/// XSched puts an arriving job on the least loaded device that it can run on,
/// where it preempts exactly where it comes before the running job by
/// criticality, deadline, priority, release and id.
pub proof fn law_xsched_arrival(
    mind: XSchedScheduler,
    job: &Job,
    task: &Task,
    view: Sight,
    actions: Seq<Action>,
    after: XSchedScheduler,
)
    requires
        held(view),
        mind.answers_arrival(job, task, view, actions, &after),
    ensures
        view.compatible_with(task).len() == 0 ==> only(actions, Action::NoOp),
        view.compatible_with(task).len() > 0 ==> exists|d: DeviceId| #[trigger]
            is_least_loaded(view, view.compatible_with(task), d) && joins(
                actions,
                job.id,
                d,
                view.running_at(d),
                |r: RunningJobInfo| ahead(arriving(job, task), of_running(r)),
            ),
{
    lemma_least_loaded(view, view.compatible_with(task));
    assert forall|r: RunningJobInfo| #[trigger]
        rank::arrival_critical(task, job).less(rank::running_critical(r)) == ahead(
            arriving(job, task),
            of_running(r),
        ) by {}
}

/// XSched runs the waiting job that comes first by criticality, and lets it
/// take over exactly where it comes before the running one.
pub proof fn law_xsched_serves_the_most_critical(
    mind: XSchedScheduler,
    job: &Job,
    d: DeviceId,
    view: Sight,
    actions: Seq<Action>,
    after: XSchedScheduler,
)
    ensures
        mind.answers_completion(job, d, view, actions, &after) || mind.answers_idle(
            d,
            view,
            actions,
            &after,
        ) ==> serves_first(actions, view.waiting_at(d), d, critical_order()),
        mind.answers_point(d, job, view, actions, &after) ==> match view.running_at(d) {
            Some(r) => takes_over(
                actions,
                view.waiting_at(d),
                d,
                job.id,
                critical_order(),
                |q: QueuedJobInfo| ahead(of_waiting(q), of_running(r)),
            ),
            None => only(actions, Action::NoOp),
        },
{
    lemma_best_critical(view.waiting_at(d));
}

} // verus!

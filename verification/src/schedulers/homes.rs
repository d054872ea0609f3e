//! The devices that jobs are at home on: dedicated to DAG instances, mapped to
//! tasks, or named by a plan.

use crate::dag::DagInstanceId;
use crate::ids::DeviceId;
use crate::job::Job;
use crate::scheduler::{Action, QueuedJobInfo, RunningJobInfo, Scheduler, Sight};
use crate::schedulers::conduct;
use crate::schedulers::conduct::{ahead, interruptible, only, Order};
use crate::schedulers::contention;
use crate::schedulers::contention::capped;
use crate::schedulers::gangs;
use crate::schedulers::modes;
use crate::schedulers::{federated, heft, match_sched, placement, tables, timetable};
use crate::schedulers::{FederatedScheduler, HeftScheduler, MatchScheduler};
use crate::select;
use crate::task::{CriticalityLevel, DeviceType, Task};
use vstd::prelude::*;

verus! {

/// Whether a type that a task asks for is the first one for which a DAG
/// instance has a dedicated device that the task can run on.
pub open spec fn is_dedicated(
    mind: FederatedScheduler,
    instance: DagInstanceId,
    task: &Task,
    view: Sight,
    k: int,
) -> bool {
    &&& 0 <= k < task.affinity@.len()
    &&& serves(mind, instance, task.affinity@[k], view.compatible_with(task))
    &&& forall|j: int|
        0 <= j < k ==> !serves(
            mind,
            instance,
            #[trigger] task.affinity@[j],
            view.compatible_with(task),
        )
}

/// Whether a DAG instance has a dedicated device of a type in a list.
pub open spec fn serves(
    mind: FederatedScheduler,
    instance: DagInstanceId,
    dt: DeviceType,
    ids: Seq<DeviceId>,
) -> bool {
    let key = federated::slot_key(instance, dt);
    mind.slots().contains_key(key) && ids.contains(mind.slots()[key])
}

proof fn lemma_reused(
    mind: FederatedScheduler,
    instance: DagInstanceId,
    affinity: Seq<DeviceType>,
    ids: Seq<DeviceId>,
)
    ensures
        match federated::reused(mind.slots(), instance, affinity, ids) {
            Some(d) => exists|k: int|
                0 <= k < affinity.len() && serves(mind, instance, #[trigger] affinity[k], ids)
                    && mind.slots()[federated::slot_key(instance, affinity[k])] == d && (forall|
                    j: int,
                | 0 <= j < k ==> !serves(mind, instance, #[trigger] affinity[j], ids)),
            None => forall|j: int|
                0 <= j < affinity.len() ==> !serves(mind, instance, #[trigger] affinity[j], ids),
        },
    decreases affinity.len(),
{
    if affinity.len() > 0 {
        let rest = affinity.drop_last();
        let n = affinity.len() - 1;
        lemma_reused(mind, instance, rest, ids);
        assert forall|j: int| 0 <= j < rest.len() implies rest[j] == #[trigger] affinity[j] by {}
        match federated::reused(mind.slots(), instance, rest, ids) {
            Some(d) => {
                let k = choose|k: int|
                    0 <= k < rest.len() && serves(mind, instance, #[trigger] rest[k], ids)
                        && mind.slots()[federated::slot_key(instance, rest[k])] == d && (forall|
                        j: int,
                    | 0 <= j < k ==> !serves(mind, instance, #[trigger] rest[j], ids));
                assert(serves(mind, instance, affinity[k], ids));
                assert forall|j: int| 0 <= j < k implies !serves(
                    mind,
                    instance,
                    #[trigger] affinity[j],
                    ids,
                ) by {
                    assert(!serves(mind, instance, rest[j], ids));
                }
            },
            None => {
                assert forall|j: int| 0 <= j < n implies !serves(
                    mind,
                    instance,
                    #[trigger] affinity[j],
                    ids,
                ) by {
                    assert(!serves(mind, instance, rest[j], ids));
                }
                assert(affinity[n] == affinity.last());
            },
        }
    }
}

/// Whether an arriving job joins a device by deadline: it preempts the running
/// job exactly where the device can be interrupted and its deadline is
/// earlier.
pub open spec fn joins_by_deadline(
    actions: Seq<Action>,
    job: &Job,
    view: Sight,
    d: DeviceId,
) -> bool {
    conduct::joins(
        actions,
        job.id,
        d,
        view.running_at(d),
        |r: RunningJobInfo|
            interruptible(view, d, false) && job.absolute_deadline < r.absolute_deadline,
    )
}

/// Under federated scheduling a job of a DAG goes to the device that its
/// instance has dedicated, for the first type of its task for which there is
/// one, and dedications stay. Any other job goes to the least loaded device
/// that it can run on, which is dedicated where the job is of a DAG. There it
/// preempts exactly where the device can be interrupted and its deadline is
/// earlier.
pub proof fn law_federated_arrival(
    mind: FederatedScheduler,
    job: &Job,
    task: &Task,
    view: Sight,
    actions: Seq<Action>,
    after: FederatedScheduler,
    k: int,
)
    requires
        conduct::held(view),
        mind.answers_arrival(job, task, view, actions, &after),
    ensures
        view.compatible_with(task).len() == 0 ==> only(actions, Action::NoOp) && after.slots()
            =~= mind.slots(),
        job.dag_provenance matches Some(prov) ==> is_dedicated(
            mind,
            prov.dag_instance_id,
            task,
            view,
            k,
        ) ==> {
            let d = mind.slots()[federated::slot_key(prov.dag_instance_id, task.affinity@[k])];
            joins_by_deadline(actions, job, view, d) && after.slots() =~= mind.slots()
        },
        job.dag_provenance is None && view.compatible_with(task).len() > 0 ==> after.slots()
            =~= mind.slots() && exists|d: DeviceId| #[trigger]
            conduct::is_least_loaded(view, view.compatible_with(task), d) && joins_by_deadline(
                actions,
                job,
                view,
                d,
            ),
        job.dag_provenance matches Some(prov) ==> view.compatible_with(task).len() > 0 && (forall|
            j: int,
        | !#[trigger] is_dedicated(mind, prov.dag_instance_id, task, view, j)) ==> exists|
            d: DeviceId,
        | #[trigger]
            conduct::is_least_loaded(view, view.compatible_with(task), d) && joins_by_deadline(
                actions,
                job,
                view,
                d,
            ) && (view.device_at(d) matches Some(device) ==> after.slots() =~= mind.slots().insert(
                federated::slot_key(prov.dag_instance_id, device.device_type),
                d,
            )),
{
    let ids = view.compatible_with(task);
    conduct::lemma_least_loaded(view, ids);
    if let Some(d) = federated::target(mind.slots(), job, task, view) {
        conduct::law_preemption_is_as_modelled(view, d, false);
    }
    if let Some(prov) = job.dag_provenance {
        let instance = prov.dag_instance_id;
        lemma_reused(mind, instance, task.affinity@, ids);
        match federated::reused(mind.slots(), instance, task.affinity@, ids) {
            Some(d) => {
                let m = choose|m: int|
                    0 <= m < task.affinity@.len() && serves(
                        mind,
                        instance,
                        #[trigger] task.affinity@[m],
                        ids,
                    ) && mind.slots()[federated::slot_key(instance, task.affinity@[m])] == d && (
                    forall|j: int|
                        0 <= j < m ==> !serves(mind, instance, #[trigger] task.affinity@[j], ids));
                assert(is_dedicated(mind, instance, task, view, m));
                if is_dedicated(mind, instance, task, view, k) {
                    assert(serves(mind, instance, task.affinity@[k], ids));
                    assert(serves(mind, instance, task.affinity@[m], ids));
                    assert(k == m);
                }
                assert(ids.contains(d));
            },
            None => {
                if is_dedicated(mind, instance, task, view, k) {
                    assert(serves(mind, instance, task.affinity@[k], ids));
                }
            },
        }
    }
}

/// Under federated scheduling a free device runs the waiting job with the
/// earliest deadline, which takes over at a preemption point of a device that
/// has such, exactly where its deadline is earlier than that of the running
/// job. Dedications stay.
pub proof fn law_federated_serves_the_earliest_deadline(
    mind: FederatedScheduler,
    job: &Job,
    d: DeviceId,
    level: CriticalityLevel,
    view: Sight,
    actions: Seq<Action>,
    after: FederatedScheduler,
)
    ensures
        mind.answers_completion(job, d, view, actions, &after) || mind.answers_idle(
            d,
            view,
            actions,
            &after,
        ) ==> after.slots() =~= mind.slots() && conduct::serves_first(
            actions,
            view.waiting_at(d),
            d,
            conduct::deadline_order(),
        ),
        mind.answers_point(d, job, view, actions, &after) ==> after.slots() =~= mind.slots()
            && conduct::takes_over(
            actions,
            view.waiting_at(d),
            d,
            job.id,
            conduct::deadline_order(),
            |q: QueuedJobInfo|
                interruptible(view, d, true) && q.absolute_deadline < job.absolute_deadline,
        ),
        mind.answers_change(level, job, view, actions, &after) ==> after.slots() =~= mind.slots(),
{
    conduct::lemma_best_deadline(view.waiting_at(d));
    conduct::law_preemption_is_as_modelled(view, d, true);
}

/// The service time of a task on the device at a place, at the speed of the
/// device, which counts as at least a thousandth. An unknown time is taken to
/// be an eighth of the largest.
pub open spec fn service_at(task: &Task, view: Sight, i: int) -> int {
    let device = view.devices[i];
    let wcet: int = match task.worst_on(device.device_type) {
        Some(w) => w as int,
        None => u64::MAX as int / 8,
    };
    let (num, den) = if device.speed_factor.num == 0 || device.speed_factor.num * 1000
        < device.speed_factor.den {
        (1int, 1000int)
    } else {
        (device.speed_factor.num as int, device.speed_factor.den as int)
    };
    capped((wcet * den + num - 1) / num)
}

/// The devices by the service time of all that waits and runs there, service
/// time, whether a job runs, length of the queue and id.
pub open spec fn by_cost(task: &Task, view: Sight, i: int) -> Order {
    let d = view.devices[i].id;
    let service = service_at(task, view, i);
    let busy: int = if view.running_at(d) is Some {
        1
    } else {
        0
    };
    let waiting = view.waiting_at(d).len() as int;
    (capped(capped(waiting + busy) * service), service, busy, waiting, d.0 as int, 0)
}

/// Whether a task can run on the device at a place.
pub open spec fn fits(task: &Task, view: Sight, i: int) -> bool {
    0 <= i < view.devices.len() && task.affinity@.contains(view.devices[i].device_type)
}

/// Whether a device is the cheapest of those that a task can run on.
pub open spec fn is_cheapest(task: &Task, view: Sight, i: int) -> bool {
    &&& fits(task, view, i)
    &&& forall|j: int| #[trigger]
        fits(task, view, j) ==> !ahead(by_cost(task, view, j), by_cost(task, view, i))
}

/// Whether a task keeps a device: it is mapped to it, has a job that runs or
/// waits, and can run on it.
pub open spec fn keeps(mapping: Map<u64, u64>, task: &Task, view: Sight, d: DeviceId) -> bool {
    &&& mapping.contains_key(task.id.0 as u64)
    &&& mapping[task.id.0 as u64] == d.0
    &&& gangs::has_work(view, task.id)
    &&& exists|i: int| #[trigger] fits(task, view, i) && view.devices[i].id == d
}

proof fn lemma_cost(task: &Task, view: Sight, i: int)
    requires
        conduct::held(view),
        0 <= i < view.devices.len(),
    ensures
        by_cost(task, view, i) == ({
            let k = match_sched::cost_key(task, view.devices[i], view);
            (k.k0 as int, k.k1 as int, k.k2 as int, k.k3 as int, k.k4 as int, k.k5 as int)
        }),
{
    conduct::lemma_held(view, view.devices[i].id);
}

proof fn lemma_cheapest(task: &Task, view: Sight)
    requires
        conduct::held(view),
    ensures
        match match_sched::cheapest(task, view) {
            Some(d) => exists|i: int| #[trigger]
                is_cheapest(task, view, i) && view.devices[i].id == d,
            None => forall|i: int| !#[trigger] fits(task, view, i),
        },
{
    let places = placement::compatible_places(task.affinity@, view.devices);
    let keys = match_sched::cost_keys(task, places, view);
    select::law_least_is_first_minimum(keys);
    assert forall|i: int| #[trigger] fits(task, view, i) <==> places.contains(i) by {
        timetable::lemma_compatible(task.affinity@, view.devices, i);
    }
    if let Some(at) = select::least(keys) {
        let i = places[at];
        assert(places.contains(i));
        assert(fits(task, view, i));
        lemma_cost(task, view, i);
        assert forall|j: int| #[trigger] fits(task, view, j) implies !ahead(
            by_cost(task, view, j),
            by_cost(task, view, i),
        ) by {
            let k = choose|k: int| 0 <= k < places.len() && places[k] == j;
            assert(!keys[k].less(keys[at]));
            lemma_cost(task, view, j);
        }
        assert(is_cheapest(task, view, i));
    }
}

proof fn lemma_has_work(task: &Task, view: Sight)
    ensures
        match_sched::task_runs(view, task.id.0 as u64) || match_sched::task_waits(
            view,
            task.id.0 as u64,
        ) <==> gangs::has_work(view, task.id),
{
    let running = tables::running_list(view.running_jobs);
    let waiting = tables::waiting_list(view.ready_queues);
    let id = task.id.0 as u64;
    if match_sched::task_runs(view, id) {
        let k = choose|k: int| 0 <= k < running.len() && (#[trigger] running[k]).task_id.0 == id;
        assert(running.contains(running[k]));
        modes::lemma_running_list(view, running[k]);
        assert(gangs::is_running(view, running[k]) && running[k].task_id == task.id);
    }
    if match_sched::task_waits(view, id) {
        let k = choose|k: int| 0 <= k < waiting.len() && (#[trigger] waiting[k]).task_id.0 == id;
        assert(waiting.contains(waiting[k]));
        modes::lemma_waiting_list(view, waiting[k]);
        assert(gangs::is_waiting(view, waiting[k]) && waiting[k].task_id == task.id);
    }
    if exists|r: RunningJobInfo| #[trigger] gangs::is_running(view, r) && r.task_id == task.id {
        let r = choose|r: RunningJobInfo| #[trigger]
            gangs::is_running(view, r) && r.task_id == task.id;
        modes::lemma_running_list(view, r);
        let k = choose|k: int| 0 <= k < running.len() && running[k] == r;
        assert(running[k].task_id.0 == id);
    }
    if exists|q: QueuedJobInfo| #[trigger] gangs::is_waiting(view, q) && q.task_id == task.id {
        let q = choose|q: QueuedJobInfo| #[trigger]
            gangs::is_waiting(view, q) && q.task_id == task.id;
        modes::lemma_waiting_list(view, q);
        let k = choose|k: int| 0 <= k < waiting.len() && waiting[k] == q;
        assert(waiting[k].task_id.0 == id);
    }
}

/// Whether an arriving job joins a device by criticality: it preempts the
/// running job exactly where the device can be interrupted and it comes first
/// by criticality, deadline, priority, release and id.
pub open spec fn joins_by_criticality(
    actions: Seq<Action>,
    job: &Job,
    task: &Task,
    view: Sight,
    d: DeviceId,
) -> bool {
    conduct::joins(
        actions,
        job.id,
        d,
        view.running_at(d),
        |r: RunningJobInfo|
            interruptible(view, d, false) && ahead(
                conduct::arriving(job, task),
                conduct::of_running(r),
            ),
    )
}

/// Under MATCH a task keeps the device that it is mapped to while it has work
/// and can run there; else an arriving job of it goes to the cheapest device,
/// which the task is then mapped to. There the job preempts exactly where the
/// device can be interrupted and it comes first by criticality.
pub proof fn law_match_arrival(
    mind: MatchScheduler,
    job: &Job,
    task: &Task,
    view: Sight,
    actions: Seq<Action>,
    after: MatchScheduler,
)
    requires
        conduct::held(view),
        mind.answers_arrival(job, task, view, actions, &after),
    ensures
        (forall|i: int| !#[trigger] fits(task, view, i)) ==> only(actions, Action::NoOp),
        forall|d: DeviceId| #[trigger]
            keeps(mind.mapping(), task, view, d) ==> joins_by_criticality(
                actions,
                job,
                task,
                view,
                d,
            ) && maps(after, job, task, d),
        (exists|i: int| #[trigger] fits(task, view, i)) && (forall|d: DeviceId|
            !#[trigger] keeps(mind.mapping(), task, view, d)) ==> exists|i: int| #[trigger]
            is_cheapest(task, view, i) && joins_by_criticality(
                actions,
                job,
                task,
                view,
                view.devices[i].id,
            ) && maps(after, job, task, view.devices[i].id),
{
    let mapping = match_sched::kept_tasks(mind.mapping(), view);
    let id = task.id.0 as u64;
    let places = placement::compatible_places(task.affinity@, view.devices);
    lemma_has_work(task, view);
    lemma_cheapest(task, view);
    assert forall|i: int| #[trigger] fits(task, view, i) <==> places.contains(i) by {
        timetable::lemma_compatible(task.affinity@, view.devices, i);
    }
    if let Some(d) = match_sched::target(mapping, task, view) {
        conduct::law_preemption_is_as_modelled(view, d, false);
    }
    assert forall|d: DeviceId| #[trigger] keeps(mind.mapping(), task, view, d) implies
        match_sched::target(mapping, task, view) == Some(d) by {
        let i = choose|i: int| #[trigger] fits(task, view, i) && view.devices[i].id == d;
        let k = choose|k: int| 0 <= k < places.len() && places[k] == i;
        assert(view.devices[places[k]].id.0 == d.0);
        assert(match_sched::suits(task, view, d.0 as u64));
        assert(view.devices[i].id.0 == d.0);
        assert(match_sched::listed(view, d.0 as u64));
        assert(DeviceId(mapping[id] as u32) == d);
    }
    if mapping.contains_key(id) && match_sched::suits(task, view, mapping[id]) {
        let k = choose|k: int|
            0 <= k < places.len() && view.devices[#[trigger] places[k]].id.0 == mapping[id];
        let d = view.devices[places[k]].id;
        assert(places.contains(places[k]));
        assert(fits(task, view, places[k]));
        assert(keeps(mind.mapping(), task, view, d));
    }
}

/// Whether a job and its task are noted on a device.
pub open spec fn maps(after: MatchScheduler, job: &Job, task: &Task, d: DeviceId) -> bool {
    &&& after.mapping().contains_key(task.id.0 as u64)
    &&& after.mapping()[task.id.0 as u64] == d.0
    &&& after.allocations().contains_key(job.id.0)
    &&& after.allocations()[job.id.0] == d.0
}

/// Under MATCH the waiting job that comes first by criticality runs next, and
/// takes over at a preemption point of a device that has such, exactly where
/// it comes before the running one.
pub proof fn law_match_serves_the_most_critical(
    mind: MatchScheduler,
    job: &Job,
    d: DeviceId,
    view: Sight,
    actions: Seq<Action>,
    after: MatchScheduler,
)
    ensures
        mind.answers_completion(job, d, view, actions, &after) || mind.answers_idle(
            d,
            view,
            actions,
            &after,
        ) ==> conduct::serves_first(
            actions,
            view.waiting_at(d),
            d,
            conduct::critical_order(),
        ),
        mind.answers_point(d, job, view, actions, &after) ==> contention::yields_at_point(
            actions,
            job,
            d,
            view,
        ),
        mind.answers_completion(job, d, view, actions, &after)
            ==> !after.allocations().contains_key(job.id.0),
{
    conduct::lemma_best_critical(view.waiting_at(d));
    conduct::law_preemption_is_as_modelled(view, d, true);
}

/// Whether a plan names a device that is there for a job of a DAG.
pub open spec fn is_planned(mind: HeftScheduler, job: &Job, view: Sight, d: DeviceId) -> bool {
    &&& job.dag_provenance matches Some(prov) && mind.plans().contains_key(prov.dag_instance_id.0)
        && prov.node.0 < mind.plans()[prov.dag_instance_id.0].device_mapping@.len()
        && mind.plans()[prov.dag_instance_id.0].device_mapping@[prov.node.0 as int] == d
    &&& exists|i: int| 0 <= i < view.devices.len() && (#[trigger] view.devices[i]).id == d
}

/// The HEFT scheduler puts a job on the device that the plan of its DAG names
/// for its node, where that device is there, and else on the first least
/// loaded one that it can run on. It runs at once where the device is idle and
/// waits otherwise: running jobs are never preempted.
pub proof fn law_planned_jobs_go_to_their_device(
    mind: HeftScheduler,
    job: &Job,
    task: &Task,
    view: Sight,
    actions: Seq<Action>,
    after: HeftScheduler,
)
    requires
        conduct::held(view),
        mind.answers_arrival(job, task, view, actions, &after),
    ensures
        after == mind,
        forall|d: DeviceId| #[trigger]
            is_planned(mind, job, view, d) ==> conduct::joins(
                actions,
                job.id,
                d,
                view.running_at(d),
                |r: RunningJobInfo| false,
            ),
        (forall|d: DeviceId| !#[trigger] is_planned(mind, job, view, d)) && view.compatible_with(
            task,
        ).len() == 0 ==> only(actions, Action::NoOp),
        (forall|d: DeviceId| !#[trigger] is_planned(mind, job, view, d)) && view.compatible_with(
            task,
        ).len() > 0 ==> exists|n: int| #[trigger]
            conduct::is_first_least_loaded(view, view.compatible_with(task), n) && conduct::joins(
                actions,
                job.id,
                view.compatible_with(task)[n],
                view.running_at(view.compatible_with(task)[n]),
                |r: RunningJobInfo| false,
            ),
{
    let ids = view.compatible_with(task);
    lemma_first_least_loaded(view, ids);
    match heft::planned(mind.plans(), job) {
        Some(d) => {
            lemma_listed(view, d);
            if view.device_at(d) is Some {
                assert(is_planned(mind, job, view, d));
            }
        },
        None => {},
    }
}

proof fn lemma_listed(view: Sight, d: DeviceId)
    ensures
        view.device_at(d) is Some <==> exists|i: int|
            0 <= i < view.devices.len() && (#[trigger] view.devices[i]).id == d,
{
    if view.device_at(d) is Some {
        let k = choose|k: int| view.is_device_index(d, k);
        assert(view.devices[k].id == d);
    }
    if exists|i: int| 0 <= i < view.devices.len() && (#[trigger] view.devices[i]).id == d {
        let i = choose|i: int| 0 <= i < view.devices.len() && (#[trigger] view.devices[i]).id == d;
        lemma_some_first(view, d, i);
    }
}

proof fn lemma_some_first(view: Sight, d: DeviceId, i: int)
    requires
        0 <= i < view.devices.len(),
        view.devices[i].id == d,
    ensures
        view.device_at(d) is Some,
    decreases i,
{
    if exists|j: int| 0 <= j < i && (#[trigger] view.devices[j]).id == d {
        let j = choose|j: int| 0 <= j < i && (#[trigger] view.devices[j]).id == d;
        lemma_some_first(view, d, j);
    } else {
        assert(view.is_device_index(d, i));
    }
}

proof fn lemma_first_least_loaded(view: Sight, ids: Seq<DeviceId>)
    requires
        conduct::held(view),
    ensures
        match placement::least_loaded(view, ids, false) {
            Some(d) => exists|n: int| #[trigger]
                conduct::is_first_least_loaded(view, ids, n) && ids[n] == d,
            None => ids.len() == 0,
        },
{
    let keys = placement::load_keys(view, ids, false);
    select::law_least_is_first_minimum(keys);
    if let Some(at) = select::least(keys) {
        assert forall|k: int| 0 <= k < ids.len() implies !ahead(
            (conduct::load(view, #[trigger] ids[k]).0, conduct::load(view, ids[k]).1, k, 0, 0, 0),
            (conduct::load(view, ids[at]).0, conduct::load(view, ids[at]).1, at, 0, 0, 0),
        ) by {
            conduct::lemma_held(view, ids[k]);
            conduct::lemma_held(view, ids[at]);
            assert(!keys[k].less(keys[at]));
            if k < at {
                assert(keys[at].less(keys[k]));
            }
        }
        assert(conduct::is_first_least_loaded(view, ids, at));
    }
}

/// The HEFT scheduler runs the head of the queue of a free device, and lets a
/// running job pass every preemption point.
pub proof fn law_planned_jobs_run_in_turn(
    mind: HeftScheduler,
    job: &Job,
    d: DeviceId,
    view: Sight,
    actions: Seq<Action>,
    after: HeftScheduler,
)
    ensures
        mind.answers_completion(job, d, view, actions, &after) || mind.answers_idle(
            d,
            view,
            actions,
            &after,
        ) ==> conduct::serves_head(actions, view.waiting_at(d), d),
        mind.answers_point(d, job, view, actions, &after) ==> only(actions, Action::NoOp),
{
}

} // verus!

//! Who gives way where more jobs are ready than devices are free, said of the
//! answers of the algorithms that choose a victim among several devices.

use crate::device::{DeviceConfig, PreemptionModel};
use crate::ids::DeviceId;
use crate::job::Job;
use crate::scheduler;
use crate::scheduler::{Action, QueuedJobInfo, RunningJobInfo, Scheduler, Sight};
use crate::schedulers::conduct;
use crate::schedulers::conduct::{ahead, all_busy, interruptible, is_shortest, only, Order};
use crate::schedulers::{
    global_edf, gpreempt, gpu_preemptive_priority, placement, rank, rtgpu,
};
use crate::schedulers::{
    GPreemptScheduler, GlobalEdfScheduler, GpuPreemptivePriorityScheduler, RtgpuScheduler,
};
use crate::search;
use crate::select;
use crate::task::{DeviceType, Task};
use vstd::prelude::*;

verus! {

/// Whether a device of a list runs a job.
pub open spec fn runs_at(view: Sight, ids: Seq<DeviceId>, d: DeviceId, r: RunningJobInfo) -> bool {
    ids.contains(d) && view.running_at(d) == Some(r)
}

/// Whether a running job is one that may give way, and none that may comes
/// after it.
pub open spec fn is_last(
    view: Sight,
    ids: Seq<DeviceId>,
    d: DeviceId,
    r: RunningJobInfo,
    order: spec_fn(DeviceId, RunningJobInfo) -> Order,
    may: spec_fn(DeviceId, RunningJobInfo) -> bool,
) -> bool {
    &&& runs_at(view, ids, d, r)
    &&& may(d, r)
    &&& forall|e: DeviceId, s: RunningJobInfo| #[trigger]
        runs_at(view, ids, e, s) && may(e, s) ==> !ahead(order(d, r), order(e, s))
}

/// Whether a device is idle and no idle one of the list has a shorter queue;
/// the lowest id counts among equals.
pub open spec fn is_shortest_idle(view: Sight, ids: Seq<DeviceId>, d: DeviceId) -> bool {
    &&& ids.contains(d)
    &&& view.running_at(d) is None
    &&& forall|e: DeviceId| #[trigger]
        ids.contains(e) && view.running_at(e) is None ==> !ahead(
            (view.waiting_at(e).len() as int, e.0 as int, 0, 0, 0, 0),
            (view.waiting_at(d).len() as int, d.0 as int, 0, 0, 0, 0),
        )
}

/// Running jobs by deadline, release and id.
pub open spec fn running_by_deadline() -> spec_fn(DeviceId, RunningJobInfo) -> Order {
    |d: DeviceId, r: RunningJobInfo|
        (r.absolute_deadline as int, r.release_time as int, r.job_id.0 as int, 0, 0, 0)
}

/// Running jobs by criticality, deadline, priority, release, id and device.
pub open spec fn running_by_criticality() -> spec_fn(DeviceId, RunningJobInfo) -> Order {
    |d: DeviceId, r: RunningJobInfo|
        (
            conduct::urgency(r.criticality),
            r.absolute_deadline as int,
            r.priority as int,
            r.release_time as int,
            r.job_id.0 as int,
            d.0 as int,
        )
}

/// Running jobs by criticality, priority, release, id and device.
pub open spec fn running_by_priority() -> spec_fn(DeviceId, RunningJobInfo) -> Order {
    |d: DeviceId, r: RunningJobInfo|
        (
            conduct::urgency(r.criticality),
            r.priority as int,
            r.release_time as int,
            r.job_id.0 as int,
            d.0 as int,
            0,
        )
}

/// Any job may give way.
pub open spec fn anyone() -> spec_fn(DeviceId, RunningJobInfo) -> bool {
    |d: DeviceId, r: RunningJobInfo| true
}

/// A job on a device that can be interrupted at any time may give way.
pub open spec fn on_interruptible(view: Sight) -> spec_fn(DeviceId, RunningJobInfo) -> bool {
    |d: DeviceId, r: RunningJobInfo| interruptible(view, d, false)
}

/// A job may give way on a device that can be interrupted at any time where it
/// comes after an arriving job by criticality.
pub open spec fn less_critical(view: Sight, job: &Job, task: &Task) -> spec_fn(
    DeviceId,
    RunningJobInfo,
) -> bool {
    |d: DeviceId, r: RunningJobInfo|
        interruptible(view, d, false) && ahead(conduct::arriving(job, task), conduct::of_running(r))
}

/// A job may give way on a device that can be interrupted at any time where it
/// comes after an arriving job by criticality, priority, release and id.
pub open spec fn less_important(view: Sight, job: &Job, task: &Task) -> spec_fn(
    DeviceId,
    RunningJobInfo,
) -> bool {
    |d: DeviceId, r: RunningJobInfo|
        interruptible(view, d, false) && ahead(
            (
                conduct::urgency(task.criticality),
                job.effective_priority as int,
                job.release_time as int,
                job.id.0 as int,
                0,
                0,
            ),
            (
                conduct::urgency(r.criticality),
                r.priority as int,
                r.release_time as int,
                r.job_id.0 as int,
                0,
                0,
            ),
        )
}

proof fn lemma_idle(view: Sight, ids: Seq<DeviceId>, d: DeviceId)
    ensures
        placement::idle_of(view, ids).contains(d) <==> ids.contains(d) && view.running_at(d)
            is None,
    decreases ids.len(),
{
    if ids.len() > 0 {
        let rest = ids.drop_last();
        let last = ids.last();
        lemma_idle(view, rest, d);
        search::lemma_last(ids, d);
        if view.running_at(last) is None {
            search::lemma_push(placement::idle_of(view, rest), last, d);
        }
    }
}

pub(crate) proof fn lemma_shortest_idle(view: Sight, ids: Seq<DeviceId>)
    requires
        conduct::held(view),
    ensures
        match placement::idle_shortest(view, ids) {
            Some(d) => is_shortest_idle(view, ids, d) && !all_busy(view, ids),
            None => all_busy(view, ids),
        },
{
    let idle = placement::idle_of(view, ids);
    conduct::lemma_shortest(view, idle);
    match placement::idle_shortest(view, ids) {
        Some(d) => {
            lemma_idle(view, ids, d);
            assert forall|e: DeviceId| #[trigger] ids.contains(e) && view.running_at(e)
                is None implies !ahead(
                (view.waiting_at(e).len() as int, e.0 as int, 0, 0, 0, 0),
                (view.waiting_at(d).len() as int, d.0 as int, 0, 0, 0, 0),
            ) by {
                lemma_idle(view, ids, e);
                let k = choose|k: int| 0 <= k < idle.len() && idle[k] == e;
                assert(idle[k] == e);
            }
            let k = choose|k: int| 0 <= k < ids.len() && ids[k] == d;
            assert(view.running_at(ids[k]) is None);
        },
        None => {
            assert forall|k: int| 0 <= k < ids.len() implies view.running_at(
                #[trigger] ids[k],
            ) is Some by {
                lemma_idle(view, ids, ids[k]);
                assert(ids.contains(ids[k]));
            }
        },
    }
}

pub(crate) proof fn lemma_busy(view: Sight, ids: Seq<DeviceId>, t: (DeviceId, RunningJobInfo))
    ensures
        global_edf::busy_of(view, ids).contains(t) <==> runs_at(view, ids, t.0, t.1),
    decreases ids.len(),
{
    if ids.len() > 0 {
        let rest = ids.drop_last();
        lemma_busy(view, rest, t);
        search::lemma_last(ids, t.0);
        if let Some(r) = view.running_at(ids.last()) {
            search::lemma_push(global_edf::busy_of(view, rest), (ids.last(), r), t);
        }
    }
}

/// Under global earliest deadline first an arriving job runs at once where a
/// device that it can run on is idle. Else it preempts the running job with
/// the latest deadline of all, exactly where its own is earlier, and otherwise
/// waits at the shortest queue.
pub proof fn law_global_edf_arrival(
    mind: GlobalEdfScheduler,
    job: &Job,
    task: &Task,
    view: Sight,
    actions: Seq<Action>,
    after: GlobalEdfScheduler,
)
    requires
        conduct::held(view),
        mind.answers_arrival(job, task, view, actions, &after),
    ensures
        view.compatible_with(task).len() == 0 ==> only(actions, Action::NoOp),
        !all_busy(view, view.compatible_with(task)) ==> exists|d: DeviceId| #[trigger]
            is_shortest_idle(view, view.compatible_with(task), d) && only(
                actions,
                Action::Dispatch { job_id: job.id, device_id: d },
            ),
        view.compatible_with(task).len() > 0 && all_busy(view, view.compatible_with(task))
            ==> exists|d: DeviceId, r: RunningJobInfo| #[trigger]
            is_last(
                view,
                view.compatible_with(task),
                d,
                r,
                running_by_deadline(),
                anyone(),
            ) && if job.absolute_deadline < r.absolute_deadline {
                only(actions, Action::Preempt { victim: r.job_id, by: job.id, device_id: d })
            } else {
                exists|e: DeviceId| #[trigger]
                    is_shortest(view, view.compatible_with(task), e) && only(
                        actions,
                        Action::Enqueue { job_id: job.id, device_id: e },
                    )
            },
{
    let ids = view.compatible_with(task);
    lemma_shortest_idle(view, ids);
    conduct::lemma_shortest(view, ids);
    let busy = global_edf::busy_of(view, ids);
    let keys = global_edf::busy_keys(busy);
    select::law_greatest_is_last_maximum(keys);
    if ids.len() > 0 && all_busy(view, ids) {
        let s = view.running_at(ids[0])->0;
        assert(ids.contains(ids[0]));
        lemma_busy(view, ids, (ids[0], s));
        let at = select::greatest(keys)->0;
        let (d, r) = busy[at];
        assert(busy.contains(busy[at]));
        lemma_busy(view, ids, busy[at]);
        let order = running_by_deadline();
        assert forall|e: DeviceId, x: RunningJobInfo| #[trigger]
            runs_at(view, ids, e, x) implies !ahead(order(d, r), order(e, x)) by {
            lemma_busy(view, ids, (e, x));
            let k = choose|k: int| 0 <= k < busy.len() && busy[k] == (e, x);
            assert(!keys[at].less(keys[k]));
        }
        assert(is_last(view, ids, d, r, order, anyone()));
    }
}

/// Under global earliest deadline first a free device runs the waiting job
/// with the earliest deadline, which takes over at a preemption point exactly
/// where its deadline is earlier than that of the running job.
pub proof fn law_global_edf_serves_the_earliest_deadline(
    mind: GlobalEdfScheduler,
    job: &Job,
    d: DeviceId,
    view: Sight,
    actions: Seq<Action>,
    after: GlobalEdfScheduler,
)
    ensures
        mind.answers_completion(job, d, view, actions, &after) || mind.answers_idle(
            d,
            view,
            actions,
            &after,
        ) ==> conduct::serves_first(
            actions,
            view.waiting_at(d),
            d,
            conduct::deadline_order(),
        ),
        mind.answers_point(d, job, view, actions, &after) ==> conduct::takes_over(
            actions,
            view.waiting_at(d),
            d,
            job.id,
            conduct::deadline_order(),
            |q: QueuedJobInfo| q.absolute_deadline < job.absolute_deadline,
        ),
{
    conduct::lemma_best_deadline(view.waiting_at(d));
}

proof fn lemma_targets(view: Sight, ids: Seq<DeviceId>, t: (DeviceId, RunningJobInfo))
    ensures
        gpreempt::targets_of(view, ids).contains(t) <==> runs_at(view, ids, t.0, t.1)
            && interruptible(view, t.0, false),
    decreases ids.len(),
{
    if ids.len() > 0 {
        let rest = ids.drop_last();
        lemma_targets(view, rest, t);
        search::lemma_last(ids, t.0);
        conduct::law_preemption_is_as_modelled(view, ids.last(), false);
        if let Some(r) = view.running_at(ids.last()) {
            search::lemma_push(gpreempt::targets_of(view, rest), (ids.last(), r), t);
        }
    }
}

proof fn lemma_rtgpu_targets(
    view: Sight,
    ids: Seq<DeviceId>,
    job: &Job,
    task: &Task,
    t: (DeviceId, RunningJobInfo),
)
    ensures
        rtgpu::targets_of(view, ids, rank::arrival_critical(task, job)).contains(t) <==> runs_at(
            view,
            ids,
            t.0,
            t.1,
        ) && less_critical(view, job, task)(t.0, t.1),
    decreases ids.len(),
{
    if ids.len() > 0 {
        let rest = ids.drop_last();
        lemma_rtgpu_targets(view, rest, job, task, t);
        search::lemma_last(ids, t.0);
        conduct::law_preemption_is_as_modelled(view, ids.last(), false);
        if let Some(r) = view.running_at(ids.last()) {
            search::lemma_push(
                rtgpu::targets_of(view, rest, rank::arrival_critical(task, job)),
                (ids.last(), r),
                t,
            );
        }
    }
}

proof fn lemma_priority_targets(
    view: Sight,
    ids: Seq<DeviceId>,
    job: &Job,
    task: &Task,
    t: (DeviceId, RunningJobInfo),
)
    ensures
        gpu_preemptive_priority::targets_of(
            view,
            ids,
            gpu_preemptive_priority::arrival_priority(task, job),
        ).contains(t) <==> runs_at(view, ids, t.0, t.1) && less_important(view, job, task)(
            t.0,
            t.1,
        ),
    decreases ids.len(),
{
    if ids.len() > 0 {
        let rest = ids.drop_last();
        lemma_priority_targets(view, rest, job, task, t);
        search::lemma_last(ids, t.0);
        conduct::law_preemption_is_as_modelled(view, ids.last(), false);
        if let Some(r) = view.running_at(ids.last()) {
            search::lemma_push(
                gpu_preemptive_priority::targets_of(
                    view,
                    rest,
                    gpu_preemptive_priority::arrival_priority(task, job),
                ),
                (ids.last(), r),
                t,
            );
        }
    }
}

/// Whether actions preempt the running job that comes last of those that may
/// give way.
pub open spec fn preempts_last(
    actions: Seq<Action>,
    job: &Job,
    view: Sight,
    ids: Seq<DeviceId>,
    order: spec_fn(DeviceId, RunningJobInfo) -> Order,
    may: spec_fn(DeviceId, RunningJobInfo) -> bool,
) -> bool {
    exists|d: DeviceId, r: RunningJobInfo| #[trigger]
        is_last(view, ids, d, r, order, may) && only(
            actions,
            Action::Preempt { victim: r.job_id, by: job.id, device_id: d },
        )
}

/// Whether a running job of a list may give way.
pub open spec fn someone_yields(
    view: Sight,
    ids: Seq<DeviceId>,
    may: spec_fn(DeviceId, RunningJobInfo) -> bool,
) -> bool {
    exists|d: DeviceId, r: RunningJobInfo| #[trigger] runs_at(view, ids, d, r) && may(d, r)
}

/// GPreempt runs an arriving job at once where a device that it can run on is
/// idle. Else, where a job on a device that can be interrupted at any time
/// comes after it by criticality, deadline, priority, release and id, it
/// preempts the one that comes last of all on such devices, and otherwise it
/// waits at the least loaded device.
pub proof fn law_gpreempt_arrival(
    mind: GPreemptScheduler,
    job: &Job,
    task: &Task,
    view: Sight,
    actions: Seq<Action>,
    after: GPreemptScheduler,
)
    requires
        conduct::held(view),
        mind.answers_arrival(job, task, view, actions, &after),
    ensures
        view.compatible_with(task).len() == 0 ==> only(actions, Action::NoOp),
        !all_busy(view, view.compatible_with(task)) ==> exists|d: DeviceId| #[trigger]
            is_shortest_idle(view, view.compatible_with(task), d) && only(
                actions,
                Action::Dispatch { job_id: job.id, device_id: d },
            ),
        all_busy(view, view.compatible_with(task)) && someone_yields(
            view,
            view.compatible_with(task),
            less_critical(view, job, task),
        ) ==> preempts_last(
            actions,
            job,
            view,
            view.compatible_with(task),
            running_by_criticality(),
            on_interruptible(view),
        ),
        view.compatible_with(task).len() > 0 && all_busy(view, view.compatible_with(task))
            && !someone_yields(
            view,
            view.compatible_with(task),
            less_critical(view, job, task),
        ) ==> exists|d: DeviceId| #[trigger]
            conduct::is_least_loaded(view, view.compatible_with(task), d) && only(
                actions,
                Action::Enqueue { job_id: job.id, device_id: d },
            ),
{
    let ids = view.compatible_with(task);
    lemma_shortest_idle(view, ids);
    conduct::lemma_least_loaded(view, ids);
    let targets = gpreempt::targets_of(view, ids);
    let keys = gpreempt::target_keys(targets);
    let order = running_by_criticality();
    let may = on_interruptible(view);
    let yields = less_critical(view, job, task);
    select::law_greatest_is_last_maximum(keys);
    if let Some(at) = select::greatest(keys) {
        let (d, r) = targets[at];
        assert(targets.contains(targets[at]));
        lemma_targets(view, ids, targets[at]);
        assert forall|e: DeviceId, x: RunningJobInfo| #[trigger]
            runs_at(view, ids, e, x) && may(e, x) implies !ahead(order(d, r), order(e, x)) by {
            lemma_targets(view, ids, (e, x));
            let k = choose|k: int| 0 <= k < targets.len() && targets[k] == (e, x);
            assert(!keys[at].less(keys[k]));
        }
        assert(is_last(view, ids, d, r, order, may));
        if someone_yields(view, ids, yields) {
            let (e, x) = choose|e: DeviceId, x: RunningJobInfo| #[trigger]
                runs_at(view, ids, e, x) && yields(e, x);
            assert(may(e, x));
            assert(!ahead(order(d, r), order(e, x)));
        } else {
            assert(!yields(d, r));
        }
    } else if someone_yields(view, ids, yields) {
        let (e, x) = choose|e: DeviceId, x: RunningJobInfo| #[trigger]
            runs_at(view, ids, e, x) && yields(e, x);
        lemma_targets(view, ids, (e, x));
    }
}

/// GPreempt runs the waiting job that comes first by criticality, and lets it
/// take over at a preemption point of a device that has such, exactly where it
/// comes before the running one.
pub proof fn law_gpreempt_serves_the_most_critical(
    mind: GPreemptScheduler,
    job: &Job,
    d: DeviceId,
    view: Sight,
    actions: Seq<Action>,
    after: GPreemptScheduler,
)
    ensures
        mind.answers_completion(job, d, view, actions, &after) || mind.answers_idle(
            d,
            view,
            actions,
            &after,
        ) ==> conduct::serves_first(
            actions,
            view.waiting_at(d),
            d,
            conduct::critical_order(),
        ),
        mind.answers_point(d, job, view, actions, &after) ==> yields_at_point(
            actions,
            job,
            d,
            view,
        ),
{
    conduct::lemma_best_critical(view.waiting_at(d));
    conduct::law_preemption_is_as_modelled(view, d, true);
}

/// Whether at a preemption point the waiting job that comes first by
/// criticality takes over exactly where the device can be interrupted there
/// and the running job comes after it.
pub open spec fn yields_at_point(
    actions: Seq<Action>,
    job: &Job,
    d: DeviceId,
    view: Sight,
) -> bool {
    match view.running_at(d) {
        Some(r) => conduct::takes_over(
            actions,
            view.waiting_at(d),
            d,
            job.id,
            conduct::critical_order(),
            |q: QueuedJobInfo|
                interruptible(view, d, true) && ahead(
                    conduct::of_waiting(q),
                    conduct::of_running(r),
                ),
        ),
        None => only(actions, Action::NoOp),
    }
}

/// The pressure on a device under RTGPU: for each job that waits or runs there
/// the time that the task would take on the device, and the time for which the
/// running job may block it, at most a second.
pub open spec fn pressure_on(task: &Task, d: DeviceId, view: Sight) -> int {
    match view.device_at(d) {
        None => u64::MAX as int,
        Some(device) => {
            let busy: int = if view.running_at(d) is Some {
                1
            } else {
                0
            };
            let wcet: int = match task.worst_on(device.device_type) {
                Some(w) => w as int,
                None => u64::MAX as int / 4,
            };
            let (num, den) = if device.speed_factor.num == 0 || device.speed_factor.num * 1000
                < device.speed_factor.den {
                (1int, 1000int)
            } else {
                (device.speed_factor.num as int, device.speed_factor.den as int)
            };
            let service = capped((wcet * den + num - 1) / num);
            let blocking: int = if busy == 0 {
                0
            } else {
                let most: int = match device.preemption {
                    PreemptionModel::FullyPreemptive => 0,
                    PreemptionModel::LimitedPreemptive { granularity_ns } => granularity_ns as int,
                    PreemptionModel::InterruptLevel { dma_non_preemptive_ns, .. } => {
                        dma_non_preemptive_ns as int
                    },
                    PreemptionModel::NonPreemptive { .. } => u64::MAX as int,
                };
                if most < 1_000_000_000 {
                    most
                } else {
                    1_000_000_000
                }
            };
            capped(capped(capped(view.waiting_at(d).len() + busy) * service) + blocking)
        },
    }
}

/// A number held at the largest `u64`.
pub open spec fn capped(n: int) -> int {
    if n > u64::MAX {
        u64::MAX as int
    } else {
        n
    }
}

/// Devices under RTGPU: by pressure, idle before busy, GPUs before others, and
/// by id.
pub open spec fn by_pressure(task: &Task, view: Sight, d: DeviceId) -> Order {
    (
        pressure_on(task, d, view),
        if view.running_at(d) is Some {
            1
        } else {
            0
        },
        if view.device_at(d) matches Some(device) && device.device_type is Gpu {
            0
        } else {
            1
        },
        d.0 as int,
        0,
        0,
    )
}

/// Whether a device is one of a list that counts, and none that counts is
/// under less pressure.
pub open spec fn is_least_pressed(
    task: &Task,
    view: Sight,
    ids: Seq<DeviceId>,
    idle_only: bool,
    d: DeviceId,
) -> bool {
    &&& ids.contains(d)
    &&& idle_only ==> view.running_at(d) is None
    &&& forall|e: DeviceId| #[trigger]
        ids.contains(e) && (idle_only ==> view.running_at(e) is None) ==> !ahead(
            by_pressure(task, view, e),
            by_pressure(task, view, d),
        )
}

proof fn lemma_pressure(task: &Task, d: DeviceId, view: Sight)
    requires
        conduct::held(view),
    ensures
        rtgpu::pressure(task, d, view) == pressure_on(task, d, view),
{
    conduct::lemma_held(view, d);
}

proof fn lemma_least_pressed(task: &Task, view: Sight, ids: Seq<DeviceId>)
    requires
        conduct::held(view),
    ensures
        match rtgpu::least_pressed(task, ids, view) {
            Some(d) => is_least_pressed(task, view, ids, false, d),
            None => ids.len() == 0,
        },
{
    let keys = rtgpu::pressure_keys(task, ids, view);
    select::law_least_is_first_minimum(keys);
    if let Some(at) = select::least(keys) {
        let d = ids[at];
        lemma_pressure(task, d, view);
        assert forall|e: DeviceId| #[trigger] ids.contains(e) implies !ahead(
            by_pressure(task, view, e),
            by_pressure(task, view, d),
        ) by {
            lemma_pressure(task, e, view);
            let k = choose|k: int| 0 <= k < ids.len() && ids[k] == e;
            assert(!keys[k].less(keys[at]));
        }
    }
}

/// RTGPU runs an arriving job on the idle device under the least pressure of
/// those that it can run on. Where all are busy, and a job on a device that can
/// be interrupted at any time comes after it by criticality, deadline,
/// priority, release and id, it preempts the one that comes last of these;
/// otherwise it waits at the device under the least pressure.
pub proof fn law_rtgpu_arrival(
    mind: RtgpuScheduler,
    job: &Job,
    task: &Task,
    view: Sight,
    actions: Seq<Action>,
    after: RtgpuScheduler,
)
    requires
        conduct::held(view),
        mind.answers_arrival(job, task, view, actions, &after),
    ensures
        view.compatible_with(task).len() == 0 ==> only(actions, Action::NoOp),
        !all_busy(view, view.compatible_with(task)) ==> exists|d: DeviceId| #[trigger]
            is_least_pressed(task, view, view.compatible_with(task), true, d) && only(
                actions,
                Action::Dispatch { job_id: job.id, device_id: d },
            ),
        all_busy(view, view.compatible_with(task)) && someone_yields(
            view,
            view.compatible_with(task),
            less_critical(view, job, task),
        ) ==> preempts_last(
            actions,
            job,
            view,
            view.compatible_with(task),
            running_by_criticality(),
            less_critical(view, job, task),
        ),
        view.compatible_with(task).len() > 0 && all_busy(view, view.compatible_with(task))
            && !someone_yields(
            view,
            view.compatible_with(task),
            less_critical(view, job, task),
        ) ==> exists|d: DeviceId| #[trigger]
            is_least_pressed(task, view, view.compatible_with(task), false, d) && only(
                actions,
                Action::Enqueue { job_id: job.id, device_id: d },
            ),
{
    let ids = view.compatible_with(task);
    let idle = placement::idle_of(view, ids);
    lemma_least_pressed(task, view, idle);
    lemma_least_pressed(task, view, ids);
    match rtgpu::least_pressed(task, idle, view) {
        Some(d) => {
            lemma_idle(view, ids, d);
            assert forall|e: DeviceId| #[trigger] ids.contains(e) && view.running_at(e)
                is None implies !ahead(
                by_pressure(task, view, e),
                by_pressure(task, view, d),
            ) by {
                lemma_idle(view, ids, e);
            }
            assert(is_least_pressed(task, view, ids, true, d));
            let k = choose|k: int| 0 <= k < ids.len() && ids[k] == d;
            assert(view.running_at(ids[k]) is None);
        },
        None => {
            assert forall|k: int| 0 <= k < ids.len() implies view.running_at(
                #[trigger] ids[k],
            ) is Some by {
                lemma_idle(view, ids, ids[k]);
                assert(ids.contains(ids[k]));
            }
        },
    }
    let targets = rtgpu::targets_of(view, ids, rank::arrival_critical(task, job));
    let keys = gpreempt::target_keys(targets);
    let order = running_by_criticality();
    let may = less_critical(view, job, task);
    select::law_greatest_is_last_maximum(keys);
    if let Some(at) = select::greatest(keys) {
        let (d, r) = targets[at];
        assert(targets.contains(targets[at]));
        lemma_rtgpu_targets(view, ids, job, task, targets[at]);
        assert forall|e: DeviceId, x: RunningJobInfo| #[trigger]
            runs_at(view, ids, e, x) && may(e, x) implies !ahead(order(d, r), order(e, x)) by {
            lemma_rtgpu_targets(view, ids, job, task, (e, x));
            let k = choose|k: int| 0 <= k < targets.len() && targets[k] == (e, x);
            assert(!keys[at].less(keys[k]));
        }
        assert(is_last(view, ids, d, r, order, may));
        assert(someone_yields(view, ids, may));
    } else if someone_yields(view, ids, may) {
        let (e, x) = choose|e: DeviceId, x: RunningJobInfo| #[trigger]
            runs_at(view, ids, e, x) && may(e, x);
        lemma_rtgpu_targets(view, ids, job, task, (e, x));
    }
}

/// RTGPU runs the waiting job that comes first by criticality, and lets it
/// take over at a preemption point of a device that has such, exactly where it
/// comes before the running one.
pub proof fn law_rtgpu_serves_the_most_critical(
    mind: RtgpuScheduler,
    job: &Job,
    d: DeviceId,
    view: Sight,
    actions: Seq<Action>,
    after: RtgpuScheduler,
)
    ensures
        mind.answers_completion(job, d, view, actions, &after) || mind.answers_idle(
            d,
            view,
            actions,
            &after,
        ) ==> conduct::serves_first(
            actions,
            view.waiting_at(d),
            d,
            conduct::critical_order(),
        ),
        mind.answers_point(d, job, view, actions, &after) ==> yields_at_point(
            actions,
            job,
            d,
            view,
        ),
{
    conduct::lemma_best_critical(view.waiting_at(d));
    conduct::law_preemption_is_as_modelled(view, d, true);
}

/// Whether a list holds the devices for a task under preemptive GPU
/// priorities: the GPUs where it asks for GPUs and there are some, else the
/// other devices that it can run on.
pub open spec fn prefers_gpus(task: &Task, devices: Seq<DeviceConfig>, ids: Seq<DeviceId>) -> bool {
    let gpus = task.affinity@.contains(DeviceType::Gpu) && exists|i: int|
        0 <= i < devices.len() && (#[trigger] devices[i]).device_type is Gpu;
    forall|d: DeviceId| #[trigger]
        ids.contains(d) <==> exists|i: int|
            0 <= i < devices.len() && (#[trigger] devices[i]).id == d && if gpus {
                devices[i].device_type is Gpu
            } else {
                !(devices[i].device_type is Gpu) && task.affinity@.contains(
                    devices[i].device_type,
                )
            }
}

proof fn lemma_gpu_part(affinity: Seq<DeviceType>, gpu: bool, dt: DeviceType)
    ensures
        gpu_preemptive_priority::gpu_part(affinity, gpu).contains(dt) <==> affinity.contains(dt)
            && (dt is Gpu) == gpu,
    decreases affinity.len(),
{
    if affinity.len() > 0 {
        lemma_gpu_part(affinity.drop_last(), gpu, dt);
        search::lemma_last(affinity, dt);
        if (affinity.last() is Gpu) == gpu {
            search::lemma_push(
                gpu_preemptive_priority::gpu_part(affinity.drop_last(), gpu),
                affinity.last(),
                dt,
            );
        }
    }
}

proof fn lemma_prefers_gpus(task: &Task, devices: Seq<DeviceConfig>)
    ensures
        prefers_gpus(task, devices, gpu_preemptive_priority::candidates(task, devices)),
{
    let ids = gpu_preemptive_priority::candidates(task, devices);
    let some = gpu_preemptive_priority::gpu_part(task.affinity@, true);
    let others = gpu_preemptive_priority::gpu_part(task.affinity@, false);
    let gpu = scheduler::compatible_ids(some, devices);
    let gpus = task.affinity@.contains(DeviceType::Gpu) && exists|i: int|
        0 <= i < devices.len() && (#[trigger] devices[i]).device_type is Gpu;
    assert forall|dt: DeviceType| #[trigger] some.contains(dt) <==> task.affinity@.contains(dt)
        && dt is Gpu by {
        lemma_gpu_part(task.affinity@, true, dt);
    }
    assert forall|dt: DeviceType| #[trigger] others.contains(dt) <==> task.affinity@.contains(dt)
        && !(dt is Gpu) by {
        lemma_gpu_part(task.affinity@, false, dt);
    }
    if gpu.len() > 0 {
        conduct::lemma_compatible_ids(some, devices, gpu[0]);
        assert(gpu.contains(gpu[0]));
        let i = choose|i: int|
            0 <= i < devices.len() && (#[trigger] devices[i]).id == gpu[0] && some.contains(
                devices[i].device_type,
            );
        assert(devices[i].device_type is Gpu);
        assert(devices[i].device_type == DeviceType::Gpu);
    } else if gpus {
        let i = choose|i: int| 0 <= i < devices.len() && (#[trigger] devices[i]).device_type is Gpu;
        conduct::lemma_compatible_ids(some, devices, devices[i].id);
        assert(devices[i].device_type == DeviceType::Gpu);
        assert(some.contains(devices[i].device_type));
        assert(gpu.contains(devices[i].id));
    }
    assert((gpu.len() > 0) == gpus);
    assert forall|d: DeviceId| #[trigger] ids.contains(d) <==> exists|i: int|
        0 <= i < devices.len() && (#[trigger] devices[i]).id == d && if gpus {
            devices[i].device_type is Gpu
        } else {
            !(devices[i].device_type is Gpu) && task.affinity@.contains(devices[i].device_type)
        } by {
        conduct::lemma_compatible_ids(some, devices, d);
        conduct::lemma_compatible_ids(others, devices, d);
        if gpus {
            assert forall|i: int| 0 <= i < devices.len() && (#[trigger] devices[i]).device_type
                is Gpu implies some.contains(devices[i].device_type) by {
                assert(devices[i].device_type == DeviceType::Gpu);
            }
        }
    }
}

/// Under preemptive GPU priorities an arriving job runs at once where a device
/// for it is idle. Else, where a job on a device that can be interrupted at any
/// time comes after it by criticality, priority, release and id, it preempts
/// the one that comes last of these; otherwise it waits at the least loaded
/// device.
pub proof fn law_gpu_priority_arrival(
    mind: GpuPreemptivePriorityScheduler,
    job: &Job,
    task: &Task,
    view: Sight,
    actions: Seq<Action>,
    after: GpuPreemptivePriorityScheduler,
) -> (ids: Seq<DeviceId>)
    requires
        conduct::held(view),
        mind.answers_arrival(job, task, view, actions, &after),
    ensures
        prefers_gpus(task, view.devices, ids),
        ids.len() == 0 ==> only(actions, Action::NoOp),
        !all_busy(view, ids) ==> exists|d: DeviceId| #[trigger]
            is_shortest_idle(view, ids, d) && only(
                actions,
                Action::Dispatch { job_id: job.id, device_id: d },
            ),
        all_busy(view, ids) && someone_yields(view, ids, less_important(view, job, task))
            ==> preempts_last(
            actions,
            job,
            view,
            ids,
            running_by_priority(),
            less_important(view, job, task),
        ),
        ids.len() > 0 && all_busy(view, ids) && !someone_yields(
            view,
            ids,
            less_important(view, job, task),
        ) ==> exists|d: DeviceId| #[trigger]
            conduct::is_least_loaded(view, ids, d) && only(
                actions,
                Action::Enqueue { job_id: job.id, device_id: d },
            ),
{
    let ids = gpu_preemptive_priority::candidates(task, view.devices);
    lemma_prefers_gpus(task, view.devices);
    lemma_shortest_idle(view, ids);
    conduct::lemma_least_loaded(view, ids);
    let targets = gpu_preemptive_priority::targets_of(
        view,
        ids,
        gpu_preemptive_priority::arrival_priority(task, job),
    );
    let keys = gpu_preemptive_priority::target_keys(targets);
    let order = running_by_priority();
    let may = less_important(view, job, task);
    select::law_greatest_is_last_maximum(keys);
    if let Some(at) = select::greatest(keys) {
        let (d, r) = targets[at];
        assert(targets.contains(targets[at]));
        lemma_priority_targets(view, ids, job, task, targets[at]);
        assert forall|e: DeviceId, x: RunningJobInfo| #[trigger]
            runs_at(view, ids, e, x) && may(e, x) implies !ahead(order(d, r), order(e, x)) by {
            lemma_priority_targets(view, ids, job, task, (e, x));
            let k = choose|k: int| 0 <= k < targets.len() && targets[k] == (e, x);
            assert(!keys[at].less(keys[k]));
        }
        assert(is_last(view, ids, d, r, order, may));
        assert(someone_yields(view, ids, may));
    } else if someone_yields(view, ids, may) {
        let (e, x) = choose|e: DeviceId, x: RunningJobInfo| #[trigger]
            runs_at(view, ids, e, x) && may(e, x);
        lemma_priority_targets(view, ids, job, task, (e, x));
    }
    ids
}

/// Under preemptive GPU priorities the waiting job that comes first by
/// criticality, priority, release and id runs next, and takes over at a
/// preemption point of a device that has such, exactly where it comes before
/// the running one.
pub proof fn law_gpu_priority_serves_the_most_important(
    mind: GpuPreemptivePriorityScheduler,
    job: &Job,
    d: DeviceId,
    view: Sight,
    actions: Seq<Action>,
    after: GpuPreemptivePriorityScheduler,
)
    ensures
        mind.answers_completion(job, d, view, actions, &after) || mind.answers_idle(
            d,
            view,
            actions,
            &after,
        ) ==> conduct::serves_first(
            actions,
            view.waiting_at(d),
            d,
            conduct::priority_order(),
        ),
        mind.answers_point(d, job, view, actions, &after) ==> match view.running_at(d) {
            Some(r) => conduct::takes_over(
                actions,
                view.waiting_at(d),
                d,
                r.job_id,
                conduct::priority_order(),
                |q: QueuedJobInfo|
                    interruptible(view, d, true) && ahead(
                        (
                            conduct::urgency(q.criticality),
                            q.priority as int,
                            q.release_time as int,
                            q.job_id.0 as int,
                            0,
                            0,
                        ),
                        (
                            conduct::urgency(r.criticality),
                            r.priority as int,
                            r.release_time as int,
                            r.job_id.0 as int,
                            0,
                            0,
                        ),
                    ),
            ),
            None => only(actions, Action::NoOp),
        },
{
    conduct::lemma_best_priority(view.waiting_at(d));
    conduct::law_preemption_is_as_modelled(view, d, true);
}

} // verus!

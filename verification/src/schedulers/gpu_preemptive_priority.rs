//! GPU-focused fixed priority with limited-preemption awareness.

use crate::device::DeviceConfig;
use crate::ids::DeviceId;
use crate::job::Job;
use crate::scheduler::{
    self, Action, ReevaluationPolicy, ReevaluationTrigger, RunningJobInfo, Scheduler, SchedulerView, Sight,
};
use crate::schedulers::{placement, rank, xsched};
use crate::select::{self, Key};
use crate::task::{CriticalityLevel, DeviceType, Task};
use vstd::prelude::*;

verus! {

/// GPU-focused fixed-priority scheduler with limited-preemption awareness.
#[derive(Debug, Clone, Copy)]
pub struct GpuPreemptivePriorityScheduler;

impl Default for GpuPreemptivePriorityScheduler {
    fn default() -> (s: Self)
        ensures
            s == GpuPreemptivePriorityScheduler,
    {
        GpuPreemptivePriorityScheduler
    }
}

/// The affinities of a list that are, or are not, for the GPU.
pub open spec fn gpu_part(affinity: Seq<DeviceType>, gpu: bool) -> Seq<DeviceType>
    decreases affinity.len(),
{
    if affinity.len() == 0 {
        Seq::empty()
    } else {
        let rest = gpu_part(affinity.drop_last(), gpu);
        if (affinity.last() is Gpu) == gpu {
            rest.push(affinity.last())
        } else {
            rest
        }
    }
}

/// The compatible GPUs where there are some, else the other compatible
/// devices.
pub open spec fn candidates(task: &Task, devices: Seq<DeviceConfig>) -> Seq<DeviceId> {
    let gpu = scheduler::compatible_ids(gpu_part(task.affinity@, true), devices);
    if gpu.len() > 0 {
        gpu
    } else {
        scheduler::compatible_ids(gpu_part(task.affinity@, false), devices)
    }
}

/// The priority key of an arriving job.
pub open spec fn arrival_priority(task: &Task, job: &Job) -> Key {
    rank::priority_key(task.criticality, job.effective_priority, job.release_time, job.id.0)
}

/// The devices of a list that can be preempted on an arrival and run a job
/// that ranks after `incoming`.
pub open spec fn targets_of(view: Sight, ids: Seq<DeviceId>, incoming: Key) -> Seq<
    (DeviceId, RunningJobInfo),
>
    decreases ids.len(),
{
    if ids.len() == 0 {
        Seq::empty()
    } else {
        let rest = targets_of(view, ids.drop_last(), incoming);
        match view.running_at(ids.last()) {
            Some(r) => if placement::may_preempt(view, ids.last(), false) && incoming.less(
                rank::running_priority(r),
            ) {
                rest.push((ids.last(), r))
            } else {
                rest
            },
            None => rest,
        }
    }
}

/// The priority key of a running job, then its device.
pub open spec fn target_key(target: (DeviceId, RunningJobInfo)) -> Key {
    Key { k4: target.0.0 as i128, ..rank::running_priority(target.1) }
}

/// Keys of the preemption targets.
pub open spec fn target_keys(targets: Seq<(DeviceId, RunningJobInfo)>) -> Seq<Key> {
    Seq::new(targets.len(), |i: int| target_key(targets[i]))
}

/// The preemption target that ranks last.
pub open spec fn worst_target(targets: Seq<(DeviceId, RunningJobInfo)>) -> Option<
    (DeviceId, RunningJobInfo),
> {
    select::item_at(targets, select::greatest(target_keys(targets)))
}

/// What an arriving job does: an idle device takes it; else it preempts the
/// running job that ranks last among those that rank after it, and waits at
/// the least loaded device where there is none.
pub open spec fn arrival(job: &Job, task: &Task, view: Sight) -> Seq<Action> {
    let ids = candidates(task, view.devices);
    match placement::idle_shortest(view, ids) {
        Some(d) => seq![Action::Dispatch { job_id: job.id, device_id: d }],
        None => match worst_target(targets_of(view, ids, arrival_priority(task, job))) {
            Some((d, r)) => seq![Action::Preempt { victim: r.job_id, by: job.id, device_id: d }],
            None => match placement::least_loaded(view, ids, true) {
                Some(d) => seq![Action::Enqueue { job_id: job.id, device_id: d }],
                None => seq![Action::NoOp],
            },
        },
    }
}

/// What happens at a preemption point: on a device that can be preempted
/// there, the first waiting job takes over where it ranks before the running
/// one.
pub open spec fn point(d: DeviceId, view: Sight) -> Seq<Action> {
    match (view.running_at(d), rank::best_priority(view.waiting_at(d))) {
        (Some(r), Some(w)) if placement::may_preempt(view, d, true) && rank::queued_priority(
            w,
        ).less(rank::running_priority(r)) => seq![
            Action::Preempt { victim: r.job_id, by: w.job_id, device_id: d },
        ],
        _ => seq![Action::NoOp],
    }
}

/// Splits the compatible devices at the affinities for the GPU.
proof fn lemma_parts(affinity: Seq<DeviceType>, devices: Seq<DeviceConfig>, n: int)
    requires
        0 <= n < affinity.len(),
    ensures
        scheduler::compatible_ids(gpu_part(affinity.take(n + 1), true), devices) == (
        if affinity[n] is Gpu {
            scheduler::compatible_ids(gpu_part(affinity.take(n), true), devices)
                + scheduler::ids_of_type(devices, affinity[n])
        } else {
            scheduler::compatible_ids(gpu_part(affinity.take(n), true), devices)
        }),
        scheduler::compatible_ids(gpu_part(affinity.take(n + 1), false), devices) == (
        if affinity[n] is Gpu {
            scheduler::compatible_ids(gpu_part(affinity.take(n), false), devices)
        } else {
            scheduler::compatible_ids(gpu_part(affinity.take(n), false), devices)
                + scheduler::ids_of_type(devices, affinity[n])
        }),
{
    assert(affinity.take(n + 1).drop_last() =~= affinity.take(n));
    let g = gpu_part(affinity.take(n), true);
    let o = gpu_part(affinity.take(n), false);
    assert(g.push(affinity[n]).drop_last() =~= g);
    assert(o.push(affinity[n]).drop_last() =~= o);
}

/// Lists the compatible GPUs, or the other compatible devices where there is
/// none.
fn list_candidates(task: &Task, view: &SchedulerView<'_>) -> (ids: Vec<DeviceId>)
    ensures
        ids@ == candidates(task, view@.devices),
{
    let mut gpu: Vec<DeviceId> = Vec::new();
    let mut non_gpu: Vec<DeviceId> = Vec::new();
    let mut a: usize = 0;
    while a < task.affinity.len()
        invariant
            a <= task.affinity@.len(),
            gpu@ == scheduler::compatible_ids(
                gpu_part(task.affinity@.take(a as int), true),
                view@.devices,
            ),
            non_gpu@ == scheduler::compatible_ids(
                gpu_part(task.affinity@.take(a as int), false),
                view@.devices,
            ),
        decreases task.affinity@.len() - a,
    {
        let dt: DeviceType = task.affinity[a];
        let ghost g0 = gpu@;
        let ghost n0 = non_gpu@;
        let mut i: usize = 0;
        while i < view.devices.len()
            invariant
                i <= view@.devices.len(),
                gpu@ == if dt is Gpu {
                    g0 + scheduler::ids_of_type(view@.devices.take(i as int), dt)
                } else {
                    g0
                },
                non_gpu@ == if dt is Gpu {
                    n0
                } else {
                    n0 + scheduler::ids_of_type(view@.devices.take(i as int), dt)
                },
            decreases view@.devices.len() - i,
        {
            proof {
                assert(view@.devices.take(i as int + 1).drop_last() =~= view@.devices.take(
                    i as int,
                ));
            }
            if view.devices[i].device_type == dt {
                if dt == DeviceType::Gpu {
                    gpu.push(view.devices[i].id);
                } else {
                    non_gpu.push(view.devices[i].id);
                }
            }
            i = i + 1;
        }
        proof {
            assert(view@.devices.take(i as int) =~= view@.devices);
            lemma_parts(task.affinity@, view@.devices, a as int);
        }
        a = a + 1;
    }
    proof {
        assert(task.affinity@.take(a as int) =~= task.affinity@);
    }
    if gpu.len() > 0 {
        gpu
    } else {
        non_gpu
    }
}

/// Lists the devices whose running job can be preempted by `incoming`.
fn list_targets(view: &SchedulerView<'_>, ids: &Vec<DeviceId>, incoming: Key) -> (targets: Vec<
    (DeviceId, RunningJobInfo),
>)
    ensures
        targets@ == targets_of(view@, ids@, incoming),
{
    let mut targets: Vec<(DeviceId, RunningJobInfo)> = Vec::new();
    let mut i: usize = 0;
    while i < ids.len()
        invariant
            i <= ids@.len(),
            targets@ == targets_of(view@, ids@.take(i as int), incoming),
        decreases ids@.len() - i,
    {
        proof {
            assert(ids@.take(i as int + 1).drop_last() =~= ids@.take(i as int));
        }
        match view.running_on_device(ids[i]) {
            Some(r) => {
                let key: Key = running_rank(&r);
                if placement::preemption_allowed(view, ids[i], false) && incoming.is_less(&key) {
                    targets.push((ids[i], r));
                }
            },
            None => {},
        }
        i = i + 1;
    }
    proof {
        assert(ids@.take(i as int) =~= ids@);
    }
    targets
}

/// Ranks a running job by the priority key.
fn running_rank(r: &RunningJobInfo) -> (key: Key)
    ensures
        key == rank::running_priority(*r),
{
    rank::make_priority_key(r.criticality, r.priority, r.release_time, r.job_id.0)
}

/// Finds the preemption target that ranks last.
fn pick_worst(targets: &Vec<(DeviceId, RunningJobInfo)>) -> (target: Option<
    (DeviceId, RunningJobInfo),
>)
    ensures
        target == worst_target(targets@),
{
    let mut keys: Vec<Key> = Vec::new();
    let mut i: usize = 0;
    while i < targets.len()
        invariant
            i <= targets@.len(),
            keys@.len() == i,
            forall|j: int| 0 <= j < i ==> #[trigger] keys@[j] == target_key(targets@[j]),
        decreases targets@.len() - i,
    {
        let k: Key = running_rank(&targets[i].1);
        keys.push(Key { k4: targets[i].0.0 as i128, ..k });
        i = i + 1;
    }
    proof {
        assert(keys@ =~= target_keys(targets@));
    }
    match select::find_greatest(&keys) {
        Some(at) => Some(targets[at]),
        None => None,
    }
}

impl Scheduler for GpuPreemptivePriorityScheduler {
    open spec fn wants(&self, policy: ReevaluationPolicy) -> bool {
        policy is Disabled
    }

    open spec fn answers_arrival(
        &self,
        job: &Job,
        task: &Task,
        view: Sight,
        actions: Seq<Action>,
        after: &Self,
    ) -> bool {
        actions =~= arrival(job, task, view)
    }

    open spec fn answers_completion(
        &self,
        job: &Job,
        device_id: DeviceId,
        view: Sight,
        actions: Seq<Action>,
        after: &Self,
    ) -> bool {
        actions =~= rank::dispatch_of(
            rank::best_priority(view.waiting_at(device_id)),
            device_id,
        )
    }

    open spec fn answers_point(
        &self,
        device_id: DeviceId,
        running_job: &Job,
        view: Sight,
        actions: Seq<Action>,
        after: &Self,
    ) -> bool {
        actions =~= point(device_id, view)
    }

    open spec fn answers_change(
        &self,
        new_level: CriticalityLevel,
        trigger_job: &Job,
        view: Sight,
        actions: Seq<Action>,
        after: &Self,
    ) -> bool {
        actions =~= xsched::criticality_change(new_level, view)
    }

    open spec fn answers_idle(
        &self,
        device_id: DeviceId,
        view: Sight,
        actions: Seq<Action>,
        after: &Self,
    ) -> bool {
        actions =~= rank::dispatch_of(
            rank::best_priority(view.waiting_at(device_id)),
            device_id,
        )
    }

    open spec fn answers_reevaluation(
        &self,
        trigger: ReevaluationTrigger,
        view: Sight,
        actions: Seq<Action>,
        after: &Self,
    ) -> bool {
        actions =~= seq![Action::NoOp] && *after == *self
    }

    fn name(&self) -> (name: &str)
        ensures
            name@ == "GPU-Preemptive-Priority"@,
    {
        "GPU-Preemptive-Priority"
    }

    fn reevaluation_policy(&self) -> (policy: ReevaluationPolicy)
        ensures
            policy is Disabled,
    {
        ReevaluationPolicy::Disabled
    }

    fn on_job_arrival(&mut self, job: &Job, task: &Task, view: &SchedulerView<'_>) -> (actions: Vec<
        Action,
    >)
        ensures
            actions@ == arrival(job, task, view@),
    {
        let ids: Vec<DeviceId> = list_candidates(task, view);
        if let Some(d) = placement::pick_idle_shortest(view, &ids) {
            return vec![Action::Dispatch { job_id: job.id, device_id: d }];
        }
        let incoming: Key = rank::make_priority_key(
            task.criticality,
            job.effective_priority,
            job.release_time,
            job.id.0,
        );
        let targets: Vec<(DeviceId, RunningJobInfo)> = list_targets(view, &ids, incoming);
        if let Some((d, r)) = pick_worst(&targets) {
            return vec![Action::Preempt { victim: r.job_id, by: job.id, device_id: d }];
        }
        match placement::pick_least_loaded(view, &ids, true) {
            Some(d) => vec![Action::Enqueue { job_id: job.id, device_id: d }],
            None => vec![Action::NoOp],
        }
    }

    fn on_job_complete(
        &mut self,
        _job: &Job,
        device_id: DeviceId,
        view: &SchedulerView<'_>,
    ) -> (actions: Vec<Action>)
        ensures
            actions@ == rank::dispatch_of(
                rank::best_priority(view.waiting_at(device_id)),
                device_id,
            ),
    {
        rank::dispatch_next(rank::best_by_priority(device_id, view), device_id)
    }

    fn on_preemption_point(
        &mut self,
        device_id: DeviceId,
        _running_job: &Job,
        view: &SchedulerView<'_>,
    ) -> (actions: Vec<Action>)
        ensures
            actions@ == point(device_id, view@),
    {
        if !placement::preemption_allowed(view, device_id, true) {
            return vec![Action::NoOp];
        }
        match (view.running_on_device(device_id), rank::best_by_priority(device_id, view)) {
            (Some(r), Some(w)) => {
                let waiting: Key = rank::make_priority_key(
                    w.criticality,
                    w.priority,
                    w.release_time,
                    w.job_id.0,
                );
                if waiting.is_less(&running_rank(&r)) {
                    vec![Action::Preempt { victim: r.job_id, by: w.job_id, device_id }]
                } else {
                    vec![Action::NoOp]
                }
            },
            _ => vec![Action::NoOp],
        }
    }

    fn on_criticality_change(
        &mut self,
        new_level: CriticalityLevel,
        _trigger_job: &Job,
        view: &SchedulerView<'_>,
    ) -> (actions: Vec<Action>)
        ensures
            actions@ == xsched::criticality_change(new_level, view@),
    {
        xsched::change_criticality(new_level, view)
    }

    fn on_device_idle(&mut self, device_id: DeviceId, view: &SchedulerView<'_>) -> (actions: Vec<
        Action,
    >)
        ensures
            actions@ == rank::dispatch_of(
                rank::best_priority(view.waiting_at(device_id)),
                device_id,
            ),
    {
        rank::dispatch_next(rank::best_by_priority(device_id, view), device_id)
    }

    fn on_reevaluation(
        &mut self,
        _trigger: ReevaluationTrigger,
        _view: &SchedulerView<'_>,
    ) -> (actions: Vec<Action>)
        ensures
            actions@ == seq![Action::NoOp],
            *final(self) == *old(self),
    {
        vec![Action::NoOp]
    }
}

} // verus!

//! GPreempt scheduler.

use crate::ids::DeviceId;
use crate::job::Job;
use crate::scheduler::{
    Action, ReevaluationPolicy, ReevaluationTrigger, RunningJobInfo, Scheduler, SchedulerView, Sight,
};
use crate::schedulers::{placement, rank, xsched};
use crate::select::{self, Key};
use crate::task::{CriticalityLevel, Task};
use vstd::prelude::*;

verus! {

/// GPreempt scheduler baseline.
#[derive(Debug, Clone, Copy)]
pub struct GPreemptScheduler;

impl Default for GPreemptScheduler {
    fn default() -> (s: Self)
        ensures
            s == GPreemptScheduler,
    {
        GPreemptScheduler
    }
}

/// The busy devices of a list that can be preempted on an arrival, each with
/// its running job.
pub open spec fn targets_of(view: Sight, ids: Seq<DeviceId>) -> Seq<
    (DeviceId, RunningJobInfo),
>
    decreases ids.len(),
{
    if ids.len() == 0 {
        Seq::empty()
    } else {
        let rest = targets_of(view, ids.drop_last());
        match view.running_at(ids.last()) {
            Some(r) => if placement::may_preempt(view, ids.last(), false) {
                rest.push((ids.last(), r))
            } else {
                rest
            },
            None => rest,
        }
    }
}

/// The critical key of a running job, then its device.
pub open spec fn target_key(target: (DeviceId, RunningJobInfo)) -> Key {
    Key { k5: target.0.0 as i128, ..rank::running_critical(target.1) }
}

/// Keys of the preemption targets.
pub open spec fn target_keys(targets: Seq<(DeviceId, RunningJobInfo)>) -> Seq<Key> {
    Seq::new(targets.len(), |i: int| target_key(targets[i]))
}

/// The preemption target that ranks last.
pub open spec fn worst_target(targets: Seq<(DeviceId, RunningJobInfo)>) -> Option<
    (DeviceId, RunningJobInfo),
> {
    select::item_at(targets, select::greatest(target_keys(targets)))
}

/// What an arriving job does: an idle device takes it; else it preempts the
/// running job that ranks last where it ranks before that one, and waits at
/// the least loaded device where it does not.
pub open spec fn arrival(job: &Job, task: &Task, view: Sight) -> Seq<Action> {
    let ids = view.compatible_with(task);
    match placement::idle_shortest(view, ids) {
        Some(d) => seq![Action::Dispatch { job_id: job.id, device_id: d }],
        None => match worst_target(targets_of(view, ids)) {
            Some((d, r)) if rank::arrival_critical(task, job).less(
                rank::running_critical(r),
            ) => seq![Action::Preempt { victim: r.job_id, by: job.id, device_id: d }],
            _ => match placement::least_loaded(view, ids, true) {
                Some(d) => seq![Action::Enqueue { job_id: job.id, device_id: d }],
                None => seq![Action::NoOp],
            },
        },
    }
}

/// What happens at a preemption point: on a device that can be preempted
/// there, the first waiting job takes over where it ranks before the running
/// one.
pub open spec fn point(d: DeviceId, victim: &Job, view: Sight) -> Seq<Action> {
    if placement::may_preempt(view, d, true) {
        xsched::point(d, victim, view)
    } else {
        seq![Action::NoOp]
    }
}

/// Lists the busy devices that can be preempted on an arrival.
fn list_targets(view: &SchedulerView<'_>, ids: &Vec<DeviceId>) -> (targets: Vec<
    (DeviceId, RunningJobInfo),
>)
    ensures
        targets@ == targets_of(view@, ids@),
{
    let mut targets: Vec<(DeviceId, RunningJobInfo)> = Vec::new();
    let mut i: usize = 0;
    while i < ids.len()
        invariant
            i <= ids@.len(),
            targets@ == targets_of(view@, ids@.take(i as int)),
        decreases ids@.len() - i,
    {
        proof {
            assert(ids@.take(i as int + 1).drop_last() =~= ids@.take(i as int));
        }
        match view.running_on_device(ids[i]) {
            Some(r) => {
                if placement::preemption_allowed(view, ids[i], false) {
                    targets.push((ids[i], r));
                }
            },
            None => {},
        }
        i = i + 1;
    }
    proof {
        assert(ids@.take(i as int) =~= ids@);
    }
    targets
}

/// Finds the preemption target that ranks last.
pub fn pick_worst(targets: &Vec<(DeviceId, RunningJobInfo)>) -> (target: Option<
    (DeviceId, RunningJobInfo),
>)
    ensures
        target == worst_target(targets@),
{
    let mut keys: Vec<Key> = Vec::new();
    let mut i: usize = 0;
    while i < targets.len()
        invariant
            i <= targets@.len(),
            keys@.len() == i,
            forall|j: int| 0 <= j < i ==> #[trigger] keys@[j] == target_key(targets@[j]),
        decreases targets@.len() - i,
    {
        let k: Key = rank::running_rank(&targets[i].1);
        keys.push(Key { k5: targets[i].0.0 as i128, ..k });
        i = i + 1;
    }
    proof {
        assert(keys@ =~= target_keys(targets@));
    }
    match select::find_greatest(&keys) {
        Some(at) => Some(targets[at]),
        None => None,
    }
}

impl Scheduler for GPreemptScheduler {
    open spec fn wants(&self, policy: ReevaluationPolicy) -> bool {
        policy is Disabled
    }

    open spec fn answers_arrival(
        &self,
        job: &Job,
        task: &Task,
        view: Sight,
        actions: Seq<Action>,
        after: &Self,
    ) -> bool {
        actions =~= arrival(job, task, view)
    }

    open spec fn answers_completion(
        &self,
        job: &Job,
        device_id: DeviceId,
        view: Sight,
        actions: Seq<Action>,
        after: &Self,
    ) -> bool {
        actions =~= rank::dispatch_of(
            rank::best_critical(view.waiting_at(device_id)),
            device_id,
        )
    }

    open spec fn answers_point(
        &self,
        device_id: DeviceId,
        running_job: &Job,
        view: Sight,
        actions: Seq<Action>,
        after: &Self,
    ) -> bool {
        actions =~= point(device_id, running_job, view)
    }

    open spec fn answers_change(
        &self,
        new_level: CriticalityLevel,
        trigger_job: &Job,
        view: Sight,
        actions: Seq<Action>,
        after: &Self,
    ) -> bool {
        actions =~= xsched::criticality_change(new_level, view)
    }

    open spec fn answers_idle(
        &self,
        device_id: DeviceId,
        view: Sight,
        actions: Seq<Action>,
        after: &Self,
    ) -> bool {
        actions =~= rank::dispatch_of(
            rank::best_critical(view.waiting_at(device_id)),
            device_id,
        )
    }

    open spec fn answers_reevaluation(
        &self,
        trigger: ReevaluationTrigger,
        view: Sight,
        actions: Seq<Action>,
        after: &Self,
    ) -> bool {
        actions =~= seq![Action::NoOp] && *after == *self
    }

    fn name(&self) -> (name: &str)
        ensures
            name@ == "GPreempt"@,
    {
        "GPreempt"
    }

    fn reevaluation_policy(&self) -> (policy: ReevaluationPolicy)
        ensures
            policy is Disabled,
    {
        ReevaluationPolicy::Disabled
    }

    fn on_job_arrival(&mut self, job: &Job, task: &Task, view: &SchedulerView<'_>) -> (actions: Vec<
        Action,
    >)
        ensures
            actions@ == arrival(job, task, view@),
    {
        let ids: Vec<DeviceId> = view.compatible_devices(task);
        if let Some(d) = placement::pick_idle_shortest(view, &ids) {
            return vec![Action::Dispatch { job_id: job.id, device_id: d }];
        }
        let targets: Vec<(DeviceId, RunningJobInfo)> = list_targets(view, &ids);
        if let Some((d, r)) = pick_worst(&targets) {
            if rank::arrival_rank(task, job).is_less(&rank::running_rank(&r)) {
                return vec![Action::Preempt { victim: r.job_id, by: job.id, device_id: d }];
            }
        }
        match placement::pick_least_loaded(view, &ids, true) {
            Some(d) => vec![Action::Enqueue { job_id: job.id, device_id: d }],
            None => vec![Action::NoOp],
        }
    }

    fn on_job_complete(
        &mut self,
        _job: &Job,
        device_id: DeviceId,
        view: &SchedulerView<'_>,
    ) -> (actions: Vec<Action>)
        ensures
            actions@ == rank::dispatch_of(
                rank::best_critical(view.waiting_at(device_id)),
                device_id,
            ),
    {
        rank::dispatch_next(rank::best_by_criticality(device_id, view), device_id)
    }

    fn on_preemption_point(
        &mut self,
        device_id: DeviceId,
        running_job: &Job,
        view: &SchedulerView<'_>,
    ) -> (actions: Vec<Action>)
        ensures
            actions@ == point(device_id, running_job, view@),
    {
        if placement::preemption_allowed(view, device_id, true) {
            xsched::preempt_by_rank(device_id, running_job, view)
        } else {
            vec![Action::NoOp]
        }
    }

    fn on_criticality_change(
        &mut self,
        new_level: CriticalityLevel,
        _trigger_job: &Job,
        view: &SchedulerView<'_>,
    ) -> (actions: Vec<Action>)
        ensures
            actions@ == xsched::criticality_change(new_level, view@),
    {
        xsched::change_criticality(new_level, view)
    }

    fn on_device_idle(&mut self, device_id: DeviceId, view: &SchedulerView<'_>) -> (actions: Vec<
        Action,
    >)
        ensures
            actions@ == rank::dispatch_of(
                rank::best_critical(view.waiting_at(device_id)),
                device_id,
            ),
    {
        rank::dispatch_next(rank::best_by_criticality(device_id, view), device_id)
    }

    fn on_reevaluation(
        &mut self,
        _trigger: ReevaluationTrigger,
        _view: &SchedulerView<'_>,
    ) -> (actions: Vec<Action>)
        ensures
            actions@ == seq![Action::NoOp],
            *final(self) == *old(self),
    {
        vec![Action::NoOp]
    }
}

} // verus!

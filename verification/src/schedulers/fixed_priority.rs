//! Fixed priority (rate monotonic as the default priority assignment).

use crate::ids::DeviceId;
use crate::job::Job;
use crate::scheduler::{
    self, Action, QueuedJobInfo, ReevaluationPolicy, ReevaluationTrigger, Scheduler, SchedulerView, Sight,
};
use crate::schedulers::{placement, rank};
use crate::task::{CriticalityLevel, Task};
use vstd::prelude::*;

verus! {

/// Fixed-priority scheduler. A lower number is a higher priority.
#[derive(Debug, Clone, Copy)]
pub struct FixedPriorityScheduler;

/// The first idle device of a list, else its first device.
pub open spec fn first_available(view: Sight, ids: Seq<DeviceId>) -> Option<DeviceId> {
    let idle = placement::idle_of(view, ids);
    if idle.len() > 0 {
        Some(idle[0])
    } else if ids.len() > 0 {
        Some(ids[0])
    } else {
        None
    }
}

/// What an arriving job does.
pub open spec fn arrival(job: &Job, task: &Task, view: Sight) -> Seq<Action> {
    match first_available(view, view.compatible_with(task)) {
        Some(d) => rank::place(
            job,
            d,
            view.running_at(d),
            view.running_at(d) matches Some(r) && job.effective_priority < r.priority,
        ),
        None => seq![Action::NoOp],
    }
}

/// What happens at a preemption point: the head of the queue takes over where
/// its priority is higher.
pub open spec fn point(d: DeviceId, running: &Job, queue: Seq<QueuedJobInfo>) -> Seq<Action> {
    if queue.len() > 0 && queue[0].priority < running.effective_priority {
        seq![Action::Preempt { victim: running.id, by: queue[0].job_id, device_id: d }]
    } else {
        seq![Action::NoOp]
    }
}

/// What a criticality change does: waiting low-criticality jobs are dropped on
/// a change to high.
pub open spec fn criticality_change(level: CriticalityLevel, view: Sight) -> Seq<
    Action,
> {
    match level {
        CriticalityLevel::Hi => scheduler::lo_drops(view.ready_queues),
        CriticalityLevel::Lo => seq![Action::NoOp],
    }
}

/// Drops waiting low-criticality jobs on a change to high.
pub fn change_criticality(level: CriticalityLevel, view: &SchedulerView<'_>) -> (actions: Vec<
    Action,
>)
    ensures
        actions@ == criticality_change(level, view@),
{
    match level {
        CriticalityLevel::Hi => view.drop_waiting_lo(),
        CriticalityLevel::Lo => vec![Action::NoOp],
    }
}

impl Scheduler for FixedPriorityScheduler {
    open spec fn wants(&self, policy: ReevaluationPolicy) -> bool {
        policy is Disabled
    }

    open spec fn answers_arrival(
        &self,
        job: &Job,
        task: &Task,
        view: Sight,
        actions: Seq<Action>,
        after: &Self,
    ) -> bool {
        actions =~= arrival(job, task, view)
    }

    open spec fn answers_completion(
        &self,
        job: &Job,
        device_id: DeviceId,
        view: Sight,
        actions: Seq<Action>,
        after: &Self,
    ) -> bool {
        actions =~= scheduler::head_dispatch(view.waiting_at(device_id), device_id)
    }

    open spec fn answers_point(
        &self,
        device_id: DeviceId,
        running_job: &Job,
        view: Sight,
        actions: Seq<Action>,
        after: &Self,
    ) -> bool {
        actions =~= point(device_id, running_job, view.waiting_at(device_id))
    }

    open spec fn answers_change(
        &self,
        new_level: CriticalityLevel,
        trigger_job: &Job,
        view: Sight,
        actions: Seq<Action>,
        after: &Self,
    ) -> bool {
        actions =~= criticality_change(new_level, view)
    }

    open spec fn answers_idle(
        &self,
        device_id: DeviceId,
        view: Sight,
        actions: Seq<Action>,
        after: &Self,
    ) -> bool {
        actions =~= scheduler::head_dispatch(view.waiting_at(device_id), device_id) && *after
            == *self
    }

    open spec fn answers_reevaluation(
        &self,
        trigger: ReevaluationTrigger,
        view: Sight,
        actions: Seq<Action>,
        after: &Self,
    ) -> bool {
        actions =~= seq![Action::NoOp] && *after == *self
    }

    fn name(&self) -> (name: &str)
        ensures
            name@ == "FP-Het"@,
    {
        "FP-Het"
    }

    fn reevaluation_policy(&self) -> (policy: ReevaluationPolicy)
        ensures
            policy is Disabled,
    {
        ReevaluationPolicy::Disabled
    }

    fn on_job_arrival(&mut self, job: &Job, task: &Task, view: &SchedulerView<'_>) -> (actions: Vec<
        Action,
    >)
        ensures
            actions@ == arrival(job, task, view@),
    {
        let ids: Vec<DeviceId> = view.compatible_devices(task);
        let idle: Vec<DeviceId> = placement::list_idle(view, &ids);
        let d: DeviceId = if idle.len() > 0 {
            idle[0]
        } else if ids.len() > 0 {
            ids[0]
        } else {
            return vec![Action::NoOp];
        };
        let running = view.running_on_device(d);
        let preempts: bool = match running {
            Some(r) => job.effective_priority < r.priority,
            None => false,
        };
        rank::place_job(job, d, running, preempts)
    }

    fn on_job_complete(
        &mut self,
        _job: &Job,
        device_id: DeviceId,
        view: &SchedulerView<'_>,
    ) -> (actions: Vec<Action>)
        ensures
            actions@ == scheduler::head_dispatch(view.waiting_at(device_id), device_id),
    {
        scheduler::dispatch_head(device_id, view)
    }

    fn on_preemption_point(
        &mut self,
        device_id: DeviceId,
        running_job: &Job,
        view: &SchedulerView<'_>,
    ) -> (actions: Vec<Action>)
        ensures
            actions@ == point(device_id, running_job, view.waiting_at(device_id)),
    {
        match view.queue_for_device(device_id) {
            Some(queue) => {
                if queue.len() > 0 && queue[0].priority < running_job.effective_priority {
                    vec![
                        Action::Preempt { victim: running_job.id, by: queue[0].job_id, device_id },
                    ]
                } else {
                    vec![Action::NoOp]
                }
            },
            None => vec![Action::NoOp],
        }
    }

    fn on_criticality_change(
        &mut self,
        new_level: CriticalityLevel,
        _trigger_job: &Job,
        view: &SchedulerView<'_>,
    ) -> (actions: Vec<Action>)
        ensures
            actions@ == criticality_change(new_level, view@),
    {
        change_criticality(new_level, view)
    }

    fn on_device_idle(&mut self, device_id: DeviceId, view: &SchedulerView<'_>) -> (actions: Vec<
        Action,
    >)
        ensures
            actions@ == scheduler::head_dispatch(view.waiting_at(device_id), device_id),
            *final(self) == *old(self),
    {
        scheduler::dispatch_head(device_id, view)
    }

    fn on_reevaluation(
        &mut self,
        _trigger: ReevaluationTrigger,
        _view: &SchedulerView<'_>,
    ) -> (actions: Vec<Action>)
        ensures
            actions@ == seq![Action::NoOp],
            *final(self) == *old(self),
    {
        vec![Action::NoOp]
    }
}

} // verus!

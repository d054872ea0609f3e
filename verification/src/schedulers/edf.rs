//! Earliest deadline first.

use crate::ids::DeviceId;
use crate::job::Job;
use crate::scheduler::{
    Action, QueuedJobInfo, ReevaluationPolicy, ReevaluationTrigger, Scheduler, SchedulerView, Sight,
};
use crate::schedulers::{fixed_priority, placement, rank};
use crate::task::{CriticalityLevel, Task};
use vstd::prelude::*;

verus! {

/// Earliest-Deadline-First scheduler for heterogeneous devices.
#[derive(Debug, Clone, Copy)]
pub struct EdfScheduler;

/// What an arriving job does: the least loaded compatible device takes it, at
/// once where its deadline is earlier than that of the running job.
pub open spec fn arrival(job: &Job, task: &Task, view: Sight) -> Seq<Action> {
    match placement::least_loaded(view, view.compatible_with(task), false) {
        Some(d) => rank::place(
            job,
            d,
            view.running_at(d),
            view.running_at(d) matches Some(r) && job.absolute_deadline < r.absolute_deadline,
        ),
        None => seq![Action::NoOp],
    }
}

/// What happens at a preemption point: the waiting job with the earliest
/// deadline takes over where that is earlier than the running job's.
pub open spec fn point(d: DeviceId, running: &Job, queue: Seq<QueuedJobInfo>) -> Seq<Action> {
    match rank::best_deadline(queue) {
        Some(w) => if w.absolute_deadline < running.absolute_deadline {
            seq![Action::Preempt { victim: running.id, by: w.job_id, device_id: d }]
        } else {
            seq![Action::NoOp]
        },
        None => seq![Action::NoOp],
    }
}

/// Lets the waiting job with the earliest deadline take over at a preemption
/// point.
pub fn preempt_by_deadline(d: DeviceId, running: &Job, view: &SchedulerView<'_>) -> (actions: Vec<
    Action,
>)
    ensures
        actions@ == point(d, running, view.waiting_at(d)),
{
    match rank::best_by_deadline(d, view) {
        Some(w) => if w.absolute_deadline < running.absolute_deadline {
            vec![Action::Preempt { victim: running.id, by: w.job_id, device_id: d }]
        } else {
            vec![Action::NoOp]
        },
        None => vec![Action::NoOp],
    }
}

impl Scheduler for EdfScheduler {
    open spec fn wants(&self, policy: ReevaluationPolicy) -> bool {
        policy is Disabled
    }

    open spec fn answers_arrival(
        &self,
        job: &Job,
        task: &Task,
        view: Sight,
        actions: Seq<Action>,
        after: &Self,
    ) -> bool {
        actions =~= arrival(job, task, view)
    }

    open spec fn answers_completion(
        &self,
        job: &Job,
        device_id: DeviceId,
        view: Sight,
        actions: Seq<Action>,
        after: &Self,
    ) -> bool {
        actions =~= rank::dispatch_of(
            rank::best_deadline(view.waiting_at(device_id)),
            device_id,
        )
    }

    open spec fn answers_point(
        &self,
        device_id: DeviceId,
        running_job: &Job,
        view: Sight,
        actions: Seq<Action>,
        after: &Self,
    ) -> bool {
        actions =~= point(device_id, running_job, view.waiting_at(device_id))
    }

    open spec fn answers_change(
        &self,
        new_level: CriticalityLevel,
        trigger_job: &Job,
        view: Sight,
        actions: Seq<Action>,
        after: &Self,
    ) -> bool {
        actions =~= fixed_priority::criticality_change(new_level, view)
    }

    open spec fn answers_idle(
        &self,
        device_id: DeviceId,
        view: Sight,
        actions: Seq<Action>,
        after: &Self,
    ) -> bool {
        actions =~= rank::dispatch_of(
            rank::best_deadline(view.waiting_at(device_id)),
            device_id,
        )
    }

    open spec fn answers_reevaluation(
        &self,
        trigger: ReevaluationTrigger,
        view: Sight,
        actions: Seq<Action>,
        after: &Self,
    ) -> bool {
        actions =~= seq![Action::NoOp] && *after == *self
    }

    fn name(&self) -> (name: &str)
        ensures
            name@ == "EDF-Het"@,
    {
        "EDF-Het"
    }

    fn reevaluation_policy(&self) -> (policy: ReevaluationPolicy)
        ensures
            policy is Disabled,
    {
        ReevaluationPolicy::Disabled
    }

    fn on_job_arrival(&mut self, job: &Job, task: &Task, view: &SchedulerView<'_>) -> (actions: Vec<
        Action,
    >)
        ensures
            actions@ == arrival(job, task, view@),
    {
        let ids: Vec<DeviceId> = view.compatible_devices(task);
        match placement::pick_least_loaded(view, &ids, false) {
            Some(d) => {
                let running = view.running_on_device(d);
                let preempts: bool = match running {
                    Some(r) => job.absolute_deadline < r.absolute_deadline,
                    None => false,
                };
                rank::place_job(job, d, running, preempts)
            },
            None => vec![Action::NoOp],
        }
    }

    fn on_job_complete(
        &mut self,
        _job: &Job,
        device_id: DeviceId,
        view: &SchedulerView<'_>,
    ) -> (actions: Vec<Action>)
        ensures
            actions@ == rank::dispatch_of(
                rank::best_deadline(view.waiting_at(device_id)),
                device_id,
            ),
    {
        rank::dispatch_next(rank::best_by_deadline(device_id, view), device_id)
    }

    fn on_preemption_point(
        &mut self,
        device_id: DeviceId,
        running_job: &Job,
        view: &SchedulerView<'_>,
    ) -> (actions: Vec<Action>)
        ensures
            actions@ == point(device_id, running_job, view.waiting_at(device_id)),
    {
        preempt_by_deadline(device_id, running_job, view)
    }

    fn on_criticality_change(
        &mut self,
        new_level: CriticalityLevel,
        _trigger_job: &Job,
        view: &SchedulerView<'_>,
    ) -> (actions: Vec<Action>)
        ensures
            actions@ == fixed_priority::criticality_change(new_level, view@),
    {
        fixed_priority::change_criticality(new_level, view)
    }

    fn on_device_idle(&mut self, device_id: DeviceId, view: &SchedulerView<'_>) -> (actions: Vec<
        Action,
    >)
        ensures
            actions@ == rank::dispatch_of(
                rank::best_deadline(view.waiting_at(device_id)),
                device_id,
            ),
    {
        rank::dispatch_next(rank::best_by_deadline(device_id, view), device_id)
    }

    fn on_reevaluation(
        &mut self,
        _trigger: ReevaluationTrigger,
        _view: &SchedulerView<'_>,
    ) -> (actions: Vec<Action>)
        ensures
            actions@ == seq![Action::NoOp],
            *final(self) == *old(self),
    {
        vec![Action::NoOp]
    }
}

} // verus!

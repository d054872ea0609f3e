//! XSched online scheduler.

use crate::ids::DeviceId;
use crate::job::Job;
use crate::scheduler::{
    self, Action, ReevaluationPolicy, ReevaluationTrigger, Scheduler, SchedulerView, Sight,
};
use crate::schedulers::{placement, rank};
use crate::task::{CriticalityLevel, Task};
use vstd::prelude::*;

verus! {

/// XSched online scheduler baseline.
#[derive(Debug, Clone, Copy)]
pub struct XSchedScheduler;

impl Default for XSchedScheduler {
    fn default() -> (s: Self)
        ensures
            s == XSchedScheduler,
    {
        XSchedScheduler
    }
}

/// What an arriving job does: the least loaded compatible device takes it, at
/// once where it ranks before the running job.
pub open spec fn arrival(job: &Job, task: &Task, view: Sight) -> Seq<Action> {
    match placement::least_loaded(view, view.compatible_with(task), true) {
        Some(d) => rank::place(
            job,
            d,
            view.running_at(d),
            view.running_at(d) matches Some(r) && rank::arrival_critical(task, job).less(
                rank::running_critical(r),
            ),
        ),
        None => seq![Action::NoOp],
    }
}

/// Whether the first waiting job of a device ranks before the running one.
pub open spec fn overtaken(d: DeviceId, view: Sight) -> bool {
    match (view.running_at(d), rank::best_critical(view.waiting_at(d))) {
        (Some(r), Some(w)) => rank::queued_critical(w).less(rank::running_critical(r)),
        _ => false,
    }
}

/// What happens at a preemption point: the first waiting job takes over where
/// it ranks before the running one.
pub open spec fn point(d: DeviceId, running: &Job, view: Sight) -> Seq<Action> {
    if overtaken(d, view) {
        seq![
            Action::Preempt {
                victim: running.id,
                by: rank::best_critical(view.waiting_at(d))->0.job_id,
                device_id: d,
            },
        ]
    } else {
        seq![Action::NoOp]
    }
}

/// What a criticality change does: waiting low-criticality jobs are dropped on
/// a change to high.
pub open spec fn criticality_change(level: CriticalityLevel, view: Sight) -> Seq<
    Action,
> {
    match level {
        CriticalityLevel::Hi => scheduler::or_no_op(scheduler::lo_drops(view.ready_queues)),
        CriticalityLevel::Lo => seq![Action::NoOp],
    }
}

/// Drops waiting low-criticality jobs on a change to high.
pub fn change_criticality(level: CriticalityLevel, view: &SchedulerView<'_>) -> (actions: Vec<
    Action,
>)
    ensures
        actions@ == criticality_change(level, view@),
{
    match level {
        CriticalityLevel::Hi => scheduler::actions_or_no_op(view.drop_waiting_lo()),
        CriticalityLevel::Lo => vec![Action::NoOp],
    }
}

/// Lets the first waiting job take over at a preemption point.
pub fn preempt_by_rank(d: DeviceId, running: &Job, view: &SchedulerView<'_>) -> (actions: Vec<
    Action,
>)
    ensures
        actions@ == point(d, running, view@),
{
    match (view.running_on_device(d), rank::best_by_criticality(d, view)) {
        (Some(r), Some(w)) => {
            if rank::queued_rank(&w).is_less(&rank::running_rank(&r)) {
                vec![Action::Preempt { victim: running.id, by: w.job_id, device_id: d }]
            } else {
                vec![Action::NoOp]
            }
        },
        _ => vec![Action::NoOp],
    }
}

impl Scheduler for XSchedScheduler {
    open spec fn wants(&self, policy: ReevaluationPolicy) -> bool {
        policy is Disabled
    }

    open spec fn answers_arrival(
        &self,
        job: &Job,
        task: &Task,
        view: Sight,
        actions: Seq<Action>,
        after: &Self,
    ) -> bool {
        actions =~= arrival(job, task, view)
    }

    open spec fn answers_completion(
        &self,
        job: &Job,
        device_id: DeviceId,
        view: Sight,
        actions: Seq<Action>,
        after: &Self,
    ) -> bool {
        actions =~= rank::dispatch_of(
            rank::best_critical(view.waiting_at(device_id)),
            device_id,
        )
    }

    open spec fn answers_point(
        &self,
        device_id: DeviceId,
        running_job: &Job,
        view: Sight,
        actions: Seq<Action>,
        after: &Self,
    ) -> bool {
        actions =~= point(device_id, running_job, view)
    }

    open spec fn answers_change(
        &self,
        new_level: CriticalityLevel,
        trigger_job: &Job,
        view: Sight,
        actions: Seq<Action>,
        after: &Self,
    ) -> bool {
        actions =~= criticality_change(new_level, view)
    }

    open spec fn answers_idle(
        &self,
        device_id: DeviceId,
        view: Sight,
        actions: Seq<Action>,
        after: &Self,
    ) -> bool {
        actions =~= rank::dispatch_of(
            rank::best_critical(view.waiting_at(device_id)),
            device_id,
        )
    }

    open spec fn answers_reevaluation(
        &self,
        trigger: ReevaluationTrigger,
        view: Sight,
        actions: Seq<Action>,
        after: &Self,
    ) -> bool {
        actions =~= seq![Action::NoOp] && *after == *self
    }

    fn name(&self) -> (name: &str)
        ensures
            name@ == "XSched"@,
    {
        "XSched"
    }

    fn reevaluation_policy(&self) -> (policy: ReevaluationPolicy)
        ensures
            policy is Disabled,
    {
        ReevaluationPolicy::Disabled
    }

    fn on_job_arrival(&mut self, job: &Job, task: &Task, view: &SchedulerView<'_>) -> (actions: Vec<
        Action,
    >)
        ensures
            actions@ == arrival(job, task, view@),
    {
        let ids: Vec<DeviceId> = view.compatible_devices(task);
        match placement::pick_least_loaded(view, &ids, true) {
            Some(d) => {
                let running = view.running_on_device(d);
                let preempts: bool = match running {
                    Some(r) => rank::arrival_rank(task, job).is_less(&rank::running_rank(&r)),
                    None => false,
                };
                rank::place_job(job, d, running, preempts)
            },
            None => vec![Action::NoOp],
        }
    }

    fn on_job_complete(
        &mut self,
        _job: &Job,
        device_id: DeviceId,
        view: &SchedulerView<'_>,
    ) -> (actions: Vec<Action>)
        ensures
            actions@ == rank::dispatch_of(
                rank::best_critical(view.waiting_at(device_id)),
                device_id,
            ),
    {
        rank::dispatch_next(rank::best_by_criticality(device_id, view), device_id)
    }

    fn on_preemption_point(
        &mut self,
        device_id: DeviceId,
        running_job: &Job,
        view: &SchedulerView<'_>,
    ) -> (actions: Vec<Action>)
        ensures
            actions@ == point(device_id, running_job, view@),
    {
        preempt_by_rank(device_id, running_job, view)
    }

    fn on_criticality_change(
        &mut self,
        new_level: CriticalityLevel,
        _trigger_job: &Job,
        view: &SchedulerView<'_>,
    ) -> (actions: Vec<Action>)
        ensures
            actions@ == criticality_change(new_level, view@),
    {
        change_criticality(new_level, view)
    }

    fn on_device_idle(&mut self, device_id: DeviceId, view: &SchedulerView<'_>) -> (actions: Vec<
        Action,
    >)
        ensures
            actions@ == rank::dispatch_of(
                rank::best_critical(view.waiting_at(device_id)),
                device_id,
            ),
    {
        rank::dispatch_next(rank::best_by_criticality(device_id, view), device_id)
    }

    fn on_reevaluation(
        &mut self,
        _trigger: ReevaluationTrigger,
        _view: &SchedulerView<'_>,
    ) -> (actions: Vec<Action>)
        ensures
            actions@ == seq![Action::NoOp],
            *final(self) == *old(self),
    {
        vec![Action::NoOp]
    }
}

} // verus!

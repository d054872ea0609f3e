//! Earliest deadline first across all compatible devices.

use crate::ids::DeviceId;
use crate::job::Job;
use crate::scheduler::{
    Action, ReevaluationPolicy, ReevaluationTrigger, RunningJobInfo, Scheduler, SchedulerView, Sight,
};
use crate::schedulers::{edf, fixed_priority, placement, rank};
use crate::select::{self, Key};
use crate::task::{CriticalityLevel, Task};
use vstd::prelude::*;

verus! {

/// Global EDF: an arrival preempts the compatible running job with the latest
/// deadline.
#[derive(Debug, Clone, Copy)]
pub struct GlobalEdfScheduler;

impl Default for GlobalEdfScheduler {
    fn default() -> (s: Self)
        ensures
            s == GlobalEdfScheduler,
    {
        GlobalEdfScheduler
    }
}

/// The busy devices of a list, each with its running job.
pub open spec fn busy_of(view: Sight, ids: Seq<DeviceId>) -> Seq<
    (DeviceId, RunningJobInfo),
>
    decreases ids.len(),
{
    if ids.len() == 0 {
        Seq::empty()
    } else {
        let rest = busy_of(view, ids.drop_last());
        match view.running_at(ids.last()) {
            Some(r) => rest.push((ids.last(), r)),
            None => rest,
        }
    }
}

/// Deadline keys of running jobs.
pub open spec fn busy_keys(busy: Seq<(DeviceId, RunningJobInfo)>) -> Seq<Key> {
    Seq::new(
        busy.len(),
        |i: int|
            rank::deadline_key(
                busy[i].1.absolute_deadline,
                busy[i].1.release_time,
                busy[i].1.job_id.0,
            ),
    )
}

/// The running job with the latest deadline.
pub open spec fn latest(busy: Seq<(DeviceId, RunningJobInfo)>) -> Option<(DeviceId, RunningJobInfo)> {
    select::item_at(busy, select::greatest(busy_keys(busy)))
}

/// What an arriving job does: an idle device takes it; else it preempts the
/// running job with the latest deadline where its own is earlier, and waits at
/// the shortest queue where it is not.
pub open spec fn arrival(job: &Job, task: &Task, view: Sight) -> Seq<Action> {
    let ids = view.compatible_with(task);
    match placement::idle_shortest(view, ids) {
        Some(d) => seq![Action::Dispatch { job_id: job.id, device_id: d }],
        None => match latest(busy_of(view, ids)) {
            Some((d, r)) if job.absolute_deadline < r.absolute_deadline => seq![
                Action::Preempt { victim: r.job_id, by: job.id, device_id: d },
            ],
            _ => match placement::shortest_queue(view, ids) {
                Some(d) => seq![Action::Enqueue { job_id: job.id, device_id: d }],
                None => seq![Action::NoOp],
            },
        },
    }
}

/// Lists the busy devices, each with its running job.
pub fn list_busy(view: &SchedulerView<'_>, ids: &Vec<DeviceId>) -> (busy: Vec<
    (DeviceId, RunningJobInfo),
>)
    ensures
        busy@ == busy_of(view@, ids@),
{
    let mut busy: Vec<(DeviceId, RunningJobInfo)> = Vec::new();
    let mut i: usize = 0;
    while i < ids.len()
        invariant
            i <= ids@.len(),
            busy@ == busy_of(view@, ids@.take(i as int)),
        decreases ids@.len() - i,
    {
        proof {
            assert(ids@.take(i as int + 1).drop_last() =~= ids@.take(i as int));
        }
        match view.running_on_device(ids[i]) {
            Some(r) => {
                busy.push((ids[i], r));
            },
            None => {},
        }
        i = i + 1;
    }
    proof {
        assert(ids@.take(i as int) =~= ids@);
    }
    busy
}

/// Finds the running job with the latest deadline.
pub fn pick_latest(busy: &Vec<(DeviceId, RunningJobInfo)>) -> (target: Option<
    (DeviceId, RunningJobInfo),
>)
    ensures
        target == latest(busy@),
{
    let mut keys: Vec<Key> = Vec::new();
    let mut i: usize = 0;
    while i < busy.len()
        invariant
            i <= busy@.len(),
            keys@.len() == i,
            forall|j: int| 0 <= j < i ==> #[trigger] keys@[j] == busy_keys(busy@)[j],
        decreases busy@.len() - i,
    {
        keys.push(
            Key {
                k0: busy[i].1.absolute_deadline as i128,
                k1: busy[i].1.release_time as i128,
                k2: busy[i].1.job_id.0 as i128,
                k3: 0,
                k4: 0,
                k5: 0,
            },
        );
        i = i + 1;
    }
    proof {
        assert(keys@ =~= busy_keys(busy@));
    }
    match select::find_greatest(&keys) {
        Some(at) => Some(busy[at]),
        None => None,
    }
}

impl Scheduler for GlobalEdfScheduler {
    open spec fn wants(&self, policy: ReevaluationPolicy) -> bool {
        policy is Disabled
    }

    open spec fn answers_arrival(
        &self,
        job: &Job,
        task: &Task,
        view: Sight,
        actions: Seq<Action>,
        after: &Self,
    ) -> bool {
        actions =~= arrival(job, task, view)
    }

    open spec fn answers_completion(
        &self,
        job: &Job,
        device_id: DeviceId,
        view: Sight,
        actions: Seq<Action>,
        after: &Self,
    ) -> bool {
        actions =~= rank::dispatch_of(
            rank::best_deadline(view.waiting_at(device_id)),
            device_id,
        )
    }

    open spec fn answers_point(
        &self,
        device_id: DeviceId,
        running_job: &Job,
        view: Sight,
        actions: Seq<Action>,
        after: &Self,
    ) -> bool {
        actions =~= edf::point(device_id, running_job, view.waiting_at(device_id))
    }

    open spec fn answers_change(
        &self,
        new_level: CriticalityLevel,
        trigger_job: &Job,
        view: Sight,
        actions: Seq<Action>,
        after: &Self,
    ) -> bool {
        actions =~= fixed_priority::criticality_change(new_level, view)
    }

    open spec fn answers_idle(
        &self,
        device_id: DeviceId,
        view: Sight,
        actions: Seq<Action>,
        after: &Self,
    ) -> bool {
        actions =~= rank::dispatch_of(
            rank::best_deadline(view.waiting_at(device_id)),
            device_id,
        )
    }

    open spec fn answers_reevaluation(
        &self,
        trigger: ReevaluationTrigger,
        view: Sight,
        actions: Seq<Action>,
        after: &Self,
    ) -> bool {
        actions =~= seq![Action::NoOp] && *after == *self
    }

    fn name(&self) -> (name: &str)
        ensures
            name@ == "Global-EDF"@,
    {
        "Global-EDF"
    }

    fn reevaluation_policy(&self) -> (policy: ReevaluationPolicy)
        ensures
            policy is Disabled,
    {
        ReevaluationPolicy::Disabled
    }

    fn on_job_arrival(&mut self, job: &Job, task: &Task, view: &SchedulerView<'_>) -> (actions: Vec<
        Action,
    >)
        ensures
            actions@ == arrival(job, task, view@),
    {
        let ids: Vec<DeviceId> = view.compatible_devices(task);
        if let Some(d) = placement::pick_idle_shortest(view, &ids) {
            return vec![Action::Dispatch { job_id: job.id, device_id: d }];
        }
        let busy: Vec<(DeviceId, RunningJobInfo)> = list_busy(view, &ids);
        if let Some((d, r)) = pick_latest(&busy) {
            if job.absolute_deadline < r.absolute_deadline {
                return vec![Action::Preempt { victim: r.job_id, by: job.id, device_id: d }];
            }
        }
        match placement::pick_shortest_queue(view, &ids) {
            Some(d) => vec![Action::Enqueue { job_id: job.id, device_id: d }],
            None => vec![Action::NoOp],
        }
    }

    fn on_job_complete(
        &mut self,
        _job: &Job,
        device_id: DeviceId,
        view: &SchedulerView<'_>,
    ) -> (actions: Vec<Action>)
        ensures
            actions@ == rank::dispatch_of(
                rank::best_deadline(view.waiting_at(device_id)),
                device_id,
            ),
    {
        rank::dispatch_next(rank::best_by_deadline(device_id, view), device_id)
    }

    fn on_preemption_point(
        &mut self,
        device_id: DeviceId,
        running_job: &Job,
        view: &SchedulerView<'_>,
    ) -> (actions: Vec<Action>)
        ensures
            actions@ == edf::point(device_id, running_job, view.waiting_at(device_id)),
    {
        edf::preempt_by_deadline(device_id, running_job, view)
    }

    fn on_criticality_change(
        &mut self,
        new_level: CriticalityLevel,
        _trigger_job: &Job,
        view: &SchedulerView<'_>,
    ) -> (actions: Vec<Action>)
        ensures
            actions@ == fixed_priority::criticality_change(new_level, view@),
    {
        fixed_priority::change_criticality(new_level, view)
    }

    fn on_device_idle(&mut self, device_id: DeviceId, view: &SchedulerView<'_>) -> (actions: Vec<
        Action,
    >)
        ensures
            actions@ == rank::dispatch_of(
                rank::best_deadline(view.waiting_at(device_id)),
                device_id,
            ),
    {
        rank::dispatch_next(rank::best_by_deadline(device_id, view), device_id)
    }

    fn on_reevaluation(
        &mut self,
        _trigger: ReevaluationTrigger,
        _view: &SchedulerView<'_>,
    ) -> (actions: Vec<Action>)
        ensures
            actions@ == seq![Action::NoOp],
            *final(self) == *old(self),
    {
        vec![Action::NoOp]
    }
}

} // verus!

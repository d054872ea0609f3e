//! RTGPU scheduler.

use crate::arith;
use crate::device::DeviceConfig;
use crate::ids::DeviceId;
use crate::job::Job;
use crate::scheduler::{
    Action, ReevaluationPolicy, ReevaluationTrigger, RunningJobInfo, Scheduler, SchedulerView, Sight,
};
use crate::schedulers::{gpreempt, placement, rank, xsched};
use crate::select::{self, Key};
use crate::task::{CriticalityLevel, DeviceType, Task};
use vstd::prelude::*;

verus! {

/// RTGPU scheduler baseline.
#[derive(Debug, Clone, Copy)]
pub struct RtgpuScheduler;

impl Default for RtgpuScheduler {
    fn default() -> (s: Self)
        ensures
            s == RtgpuScheduler,
    {
        RtgpuScheduler
    }
}

/// WCET assumed on a device type that a task gives no model for.
pub const UNKNOWN_WCET: u64 = 4_611_686_018_427_387_903;

/// The most that blocking counts for in the pressure on a device.
pub const BLOCKING_CAP: u64 = 1_000_000_000;

/// Service time of a task at the speed of a device.
pub open spec fn service_time(task: &Task, device: DeviceConfig, unknown: u64) -> u64 {
    arith::time_at_rate(
        match task.worst_on(device.device_type) {
            Some(wcet) => wcet,
            None => unknown,
        },
        device.speed_factor.floored(),
    )
}

/// The pressure on a device: service times of what waits and runs there, and
/// the blocking by what runs.
pub open spec fn pressure(task: &Task, d: DeviceId, view: Sight) -> u64 {
    match view.device_at(d) {
        Some(device) => {
            let running: u64 = if view.running_at(d) is Some {
                1
            } else {
                0
            };
            let bound = device.preemption.blocking_bound();
            let blocking: u64 = if running == 0 {
                0
            } else if bound < BLOCKING_CAP {
                bound
            } else {
                BLOCKING_CAP
            };
            arith::sat_add(
                arith::sat_mul(
                    arith::sat_add(view.waiting_at(d).len() as u64, running),
                    service_time(task, device, UNKNOWN_WCET),
                ),
                blocking,
            )
        },
        None => u64::MAX,
    }
}

/// GPUs come before the other devices.
pub open spec fn kind_rank(d: DeviceId, view: Sight) -> i128 {
    match view.device_at(d) {
        Some(device) if device.device_type is Gpu => 0,
        _ => 1,
    }
}

/// Pressure, whether a job runs, kind and id of a device.
pub open spec fn pressure_key(task: &Task, d: DeviceId, view: Sight) -> Key {
    Key {
        k0: pressure(task, d, view) as i128,
        k1: if view.running_at(d) is Some {
            1
        } else {
            0
        },
        k2: kind_rank(d, view),
        k3: d.0 as i128,
        k4: 0,
        k5: 0,
    }
}

/// Pressure keys of a list of devices.
pub open spec fn pressure_keys(task: &Task, ids: Seq<DeviceId>, view: Sight) -> Seq<
    Key,
> {
    Seq::new(ids.len(), |i: int| pressure_key(task, ids[i], view))
}

/// The device under the least pressure.
pub open spec fn least_pressed(
    task: &Task,
    ids: Seq<DeviceId>,
    view: Sight,
) -> Option<DeviceId> {
    select::item_at(ids, select::least(pressure_keys(task, ids, view)))
}

/// The devices of a list that can be preempted on an arrival and run a job
/// that ranks after `incoming`.
pub open spec fn targets_of(view: Sight, ids: Seq<DeviceId>, incoming: Key) -> Seq<
    (DeviceId, RunningJobInfo),
>
    decreases ids.len(),
{
    if ids.len() == 0 {
        Seq::empty()
    } else {
        let rest = targets_of(view, ids.drop_last(), incoming);
        match view.running_at(ids.last()) {
            Some(r) => if placement::may_preempt(view, ids.last(), false) && incoming.less(
                rank::running_critical(r),
            ) {
                rest.push((ids.last(), r))
            } else {
                rest
            },
            None => rest,
        }
    }
}

/// What an arriving job does: the idle device under the least pressure takes
/// it; else it preempts the running job that ranks last among those that rank
/// after it, and waits at the device under the least pressure where there is
/// none.
pub open spec fn arrival(job: &Job, task: &Task, view: Sight) -> Seq<Action> {
    let ids = view.compatible_with(task);
    match least_pressed(task, placement::idle_of(view, ids), view) {
        Some(d) => seq![Action::Dispatch { job_id: job.id, device_id: d }],
        None => match gpreempt::worst_target(
            targets_of(view, ids, rank::arrival_critical(task, job)),
        ) {
            Some((d, r)) => seq![Action::Preempt { victim: r.job_id, by: job.id, device_id: d }],
            None => match least_pressed(task, ids, view) {
                Some(d) => seq![Action::Enqueue { job_id: job.id, device_id: d }],
                None => seq![Action::NoOp],
            },
        },
    }
}

/// Computes the service time of a task at the speed of a device.
pub fn estimated_service_ns(task: &Task, device: &DeviceConfig, unknown: u64) -> (ns: u64)
    ensures
        ns == service_time(task, *device, unknown),
{
    let wcet: u64 = match task.wcet_on(device.device_type) {
        Some(w) => w,
        None => unknown,
    };
    arith::time_for(wcet, device.speed_factor.at_least_a_thousandth())
}

/// Computes the pressure on a device.
fn queue_pressure(task: &Task, d: DeviceId, view: &SchedulerView<'_>) -> (p: u64)
    ensures
        p == pressure(task, d, view@),
{
    let device: &DeviceConfig = match view.device(d) {
        Some(c) => c,
        None => {
            return u64::MAX;
        },
    };
    let service: u64 = estimated_service_ns(task, device, UNKNOWN_WCET);
    let waiting: u64 = view.queue_len(d) as u64;
    let running: u64 = match view.running_on_device(d) {
        Some(_) => 1,
        None => 0,
    };
    let bound: u64 = device.preemption.max_blocking();
    let blocking: u64 = if running == 0 {
        0
    } else if bound < BLOCKING_CAP {
        bound
    } else {
        BLOCKING_CAP
    };
    arith::saturating_mul(waiting.saturating_add(running), service).saturating_add(blocking)
}

/// Finds the device under the least pressure.
fn pick_least_pressed(task: &Task, ids: &Vec<DeviceId>, view: &SchedulerView<'_>) -> (d: Option<
    DeviceId,
>)
    ensures
        d == least_pressed(task, ids@, view@),
{
    let mut keys: Vec<Key> = Vec::new();
    let mut i: usize = 0;
    while i < ids.len()
        invariant
            i <= ids@.len(),
            keys@.len() == i,
            forall|j: int| 0 <= j < i ==> #[trigger] keys@[j] == pressure_key(task, ids@[j], view@),
        decreases ids@.len() - i,
    {
        let k0: i128 = queue_pressure(task, ids[i], view) as i128;
        let k1: i128 = match view.running_on_device(ids[i]) {
            Some(_) => 1,
            None => 0,
        };
        let k2: i128 = match view.device(ids[i]) {
            Some(device) => if device.device_type == DeviceType::Gpu {
                0
            } else {
                1
            },
            None => 1,
        };
        keys.push(Key { k0, k1, k2, k3: ids[i].0 as i128, k4: 0, k5: 0 });
        i = i + 1;
    }
    proof {
        assert(keys@ =~= pressure_keys(task, ids@, view@));
    }
    match select::find_least(&keys) {
        Some(at) => Some(ids[at]),
        None => None,
    }
}

/// Lists the devices whose running job can be preempted by `incoming`.
fn list_targets(view: &SchedulerView<'_>, ids: &Vec<DeviceId>, incoming: Key) -> (targets: Vec<
    (DeviceId, RunningJobInfo),
>)
    ensures
        targets@ == targets_of(view@, ids@, incoming),
{
    let mut targets: Vec<(DeviceId, RunningJobInfo)> = Vec::new();
    let mut i: usize = 0;
    while i < ids.len()
        invariant
            i <= ids@.len(),
            targets@ == targets_of(view@, ids@.take(i as int), incoming),
        decreases ids@.len() - i,
    {
        proof {
            assert(ids@.take(i as int + 1).drop_last() =~= ids@.take(i as int));
        }
        match view.running_on_device(ids[i]) {
            Some(r) => {
                let key: Key = rank::running_rank(&r);
                if placement::preemption_allowed(view, ids[i], false) && incoming.is_less(&key) {
                    targets.push((ids[i], r));
                }
            },
            None => {},
        }
        i = i + 1;
    }
    proof {
        assert(ids@.take(i as int) =~= ids@);
    }
    targets
}

impl Scheduler for RtgpuScheduler {
    open spec fn wants(&self, policy: ReevaluationPolicy) -> bool {
        policy is Disabled
    }

    open spec fn answers_arrival(
        &self,
        job: &Job,
        task: &Task,
        view: Sight,
        actions: Seq<Action>,
        after: &Self,
    ) -> bool {
        actions =~= arrival(job, task, view)
    }

    open spec fn answers_completion(
        &self,
        job: &Job,
        device_id: DeviceId,
        view: Sight,
        actions: Seq<Action>,
        after: &Self,
    ) -> bool {
        actions =~= rank::dispatch_of(
            rank::best_critical(view.waiting_at(device_id)),
            device_id,
        )
    }

    open spec fn answers_point(
        &self,
        device_id: DeviceId,
        running_job: &Job,
        view: Sight,
        actions: Seq<Action>,
        after: &Self,
    ) -> bool {
        actions =~= gpreempt::point(device_id, running_job, view)
    }

    open spec fn answers_change(
        &self,
        new_level: CriticalityLevel,
        trigger_job: &Job,
        view: Sight,
        actions: Seq<Action>,
        after: &Self,
    ) -> bool {
        actions =~= xsched::criticality_change(new_level, view)
    }

    open spec fn answers_idle(
        &self,
        device_id: DeviceId,
        view: Sight,
        actions: Seq<Action>,
        after: &Self,
    ) -> bool {
        actions =~= rank::dispatch_of(
            rank::best_critical(view.waiting_at(device_id)),
            device_id,
        )
    }

    open spec fn answers_reevaluation(
        &self,
        trigger: ReevaluationTrigger,
        view: Sight,
        actions: Seq<Action>,
        after: &Self,
    ) -> bool {
        actions =~= seq![Action::NoOp] && *after == *self
    }

    fn name(&self) -> (name: &str)
        ensures
            name@ == "RTGPU"@,
    {
        "RTGPU"
    }

    fn reevaluation_policy(&self) -> (policy: ReevaluationPolicy)
        ensures
            policy is Disabled,
    {
        ReevaluationPolicy::Disabled
    }

    fn on_job_arrival(&mut self, job: &Job, task: &Task, view: &SchedulerView<'_>) -> (actions: Vec<
        Action,
    >)
        ensures
            actions@ == arrival(job, task, view@),
    {
        let ids: Vec<DeviceId> = view.compatible_devices(task);
        let idle: Vec<DeviceId> = placement::list_idle(view, &ids);
        if let Some(d) = pick_least_pressed(task, &idle, view) {
            return vec![Action::Dispatch { job_id: job.id, device_id: d }];
        }
        let incoming: Key = rank::arrival_rank(task, job);
        let targets: Vec<(DeviceId, RunningJobInfo)> = list_targets(view, &ids, incoming);
        if let Some((d, r)) = gpreempt::pick_worst(&targets) {
            return vec![Action::Preempt { victim: r.job_id, by: job.id, device_id: d }];
        }
        match pick_least_pressed(task, &ids, view) {
            Some(d) => vec![Action::Enqueue { job_id: job.id, device_id: d }],
            None => vec![Action::NoOp],
        }
    }

    fn on_job_complete(
        &mut self,
        _job: &Job,
        device_id: DeviceId,
        view: &SchedulerView<'_>,
    ) -> (actions: Vec<Action>)
        ensures
            actions@ == rank::dispatch_of(
                rank::best_critical(view.waiting_at(device_id)),
                device_id,
            ),
    {
        rank::dispatch_next(rank::best_by_criticality(device_id, view), device_id)
    }

    fn on_preemption_point(
        &mut self,
        device_id: DeviceId,
        running_job: &Job,
        view: &SchedulerView<'_>,
    ) -> (actions: Vec<Action>)
        ensures
            actions@ == gpreempt::point(device_id, running_job, view@),
    {
        if placement::preemption_allowed(view, device_id, true) {
            xsched::preempt_by_rank(device_id, running_job, view)
        } else {
            vec![Action::NoOp]
        }
    }

    fn on_criticality_change(
        &mut self,
        new_level: CriticalityLevel,
        _trigger_job: &Job,
        view: &SchedulerView<'_>,
    ) -> (actions: Vec<Action>)
        ensures
            actions@ == xsched::criticality_change(new_level, view@),
    {
        xsched::change_criticality(new_level, view)
    }

    fn on_device_idle(&mut self, device_id: DeviceId, view: &SchedulerView<'_>) -> (actions: Vec<
        Action,
    >)
        ensures
            actions@ == rank::dispatch_of(
                rank::best_critical(view.waiting_at(device_id)),
                device_id,
            ),
    {
        rank::dispatch_next(rank::best_by_criticality(device_id, view), device_id)
    }

    fn on_reevaluation(
        &mut self,
        _trigger: ReevaluationTrigger,
        _view: &SchedulerView<'_>,
    ) -> (actions: Vec<Action>)
        ensures
            actions@ == seq![Action::NoOp],
            *final(self) == *old(self),
    {
        vec![Action::NoOp]
    }
}

} // verus!

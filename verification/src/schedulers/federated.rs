//! Federated scheduling: one dedicated device per DAG instance and type.

use crate::dag::DagInstanceId;
use crate::ids::DeviceId;
use crate::job::Job;
use crate::scheduler::{
    Action, ReevaluationPolicy, ReevaluationTrigger, RunningJobInfo, Scheduler, SchedulerView, Sight,
};
use crate::schedulers::{fixed_priority, placement, rank};
use crate::task::{CriticalityLevel, DeviceType, Task};
use std::collections::HashMap;
use vstd::prelude::*;

verus! {

broadcast use vstd::std_specs::hash::group_hash_axioms;

/// Federated baseline scheduler: one compatible device is dedicated to each
/// DAG instance and device type, with EDF within each device.
#[derive(Debug)]
pub struct FederatedScheduler {
    dedicated_devices: HashMap<u128, DeviceId>,
}

/// Number of a device type.
pub open spec fn type_code(dt: DeviceType) -> u128 {
    match dt {
        DeviceType::Cpu => 0,
        DeviceType::Gpu => 1,
        DeviceType::Dsp => 2,
        DeviceType::Fpga => 3,
    }
}

/// The key of a DAG instance and device type.
pub open spec fn slot_key(instance: DagInstanceId, dt: DeviceType) -> u128 {
    (instance.0 * 4 + type_code(dt)) as u128
}

/// The first type of an affinity list whose dedicated device is a candidate,
/// as that device.
pub open spec fn reused(
    slots: Map<u128, DeviceId>,
    instance: DagInstanceId,
    affinity: Seq<DeviceType>,
    ids: Seq<DeviceId>,
) -> Option<DeviceId>
    decreases affinity.len(),
{
    if affinity.len() == 0 {
        None
    } else {
        match reused(slots, instance, affinity.drop_last(), ids) {
            Some(d) => Some(d),
            None => {
                let key = slot_key(instance, affinity.last());
                if slots.contains_key(key) && ids.contains(slots[key]) {
                    Some(slots[key])
                } else {
                    None
                }
            },
        }
    }
}

/// The type of a device as the view lists it.
pub open spec fn listed_type(view: Sight, d: DeviceId) -> DeviceType {
    match view.device_at(d) {
        Some(device) => device.device_type,
        None => DeviceType::Cpu,
    }
}

/// The device that an arriving job goes to.
pub open spec fn target(
    slots: Map<u128, DeviceId>,
    job: &Job,
    task: &Task,
    view: Sight,
) -> Option<DeviceId> {
    let ids = view.compatible_with(task);
    match job.dag_provenance {
        Some(prov) => match reused(slots, prov.dag_instance_id, task.affinity@, ids) {
            Some(d) => Some(d),
            None => placement::least_loaded(view, ids, true),
        },
        None => placement::least_loaded(view, ids, true),
    }
}

/// The dedications after an arrival: a DAG job that reuses none makes one.
pub open spec fn dedicated_after(
    slots: Map<u128, DeviceId>,
    job: &Job,
    task: &Task,
    view: Sight,
) -> Map<u128, DeviceId> {
    let ids = view.compatible_with(task);
    match job.dag_provenance {
        Some(prov) => match (
            reused(slots, prov.dag_instance_id, task.affinity@, ids),
            placement::least_loaded(view, ids, true),
        ) {
            (None, Some(d)) => slots.insert(
                slot_key(prov.dag_instance_id, listed_type(view, d)),
                d,
            ),
            _ => slots,
        },
        None => slots,
    }
}

/// What an arriving job does.
pub open spec fn arrival(
    slots: Map<u128, DeviceId>,
    job: &Job,
    task: &Task,
    view: Sight,
) -> Seq<Action> {
    match target(slots, job, task, view) {
        Some(d) => rank::place(
            job,
            d,
            view.running_at(d),
            view.running_at(d) matches Some(r) && job.absolute_deadline < r.absolute_deadline
                && placement::may_preempt(view, d, false),
        ),
        None => seq![Action::NoOp],
    }
}

/// What happens at a preemption point.
pub open spec fn point(d: DeviceId, running: &Job, view: Sight) -> Seq<Action> {
    match rank::best_deadline(view.waiting_at(d)) {
        Some(w) if w.absolute_deadline < running.absolute_deadline && placement::may_preempt(
            view,
            d,
            true,
        ) => seq![Action::Preempt { victim: running.id, by: w.job_id, device_id: d }],
        _ => seq![Action::NoOp],
    }
}

/// A device reused by a prefix of an affinity list is reused by the whole.
proof fn lemma_reused_prefix(
    slots: Map<u128, DeviceId>,
    instance: DagInstanceId,
    affinity: Seq<DeviceType>,
    ids: Seq<DeviceId>,
    n: int,
)
    requires
        0 <= n <= affinity.len(),
        reused(slots, instance, affinity.take(n), ids) is Some,
    ensures
        reused(slots, instance, affinity, ids) == reused(slots, instance, affinity.take(n), ids),
    decreases affinity.len() - n,
{
    if n == affinity.len() {
        assert(affinity.take(n) =~= affinity);
    } else {
        assert(affinity.take(n + 1).drop_last() =~= affinity.take(n));
        lemma_reused_prefix(slots, instance, affinity, ids, n + 1);
    }
}

impl FederatedScheduler {
    /// The dedicated device of each DAG instance and device type.
    pub closed spec fn slots(&self) -> Map<u128, DeviceId> {
        self.dedicated_devices@
    }

    /// Builds the key of a DAG instance and device type.
    fn key_of(instance: DagInstanceId, dt: DeviceType) -> (key: u128)
        ensures
            key == slot_key(instance, dt),
    {
        let code: u128 = match dt {
            DeviceType::Cpu => 0,
            DeviceType::Gpu => 1,
            DeviceType::Dsp => 2,
            DeviceType::Fpga => 3,
        };
        instance.0 as u128 * 4 + code
    }

    /// Tells whether a list holds a device.
    fn lists(ids: &Vec<DeviceId>, d: DeviceId) -> (yes: bool)
        ensures
            yes == ids@.contains(d),
    {
        let mut i: usize = 0;
        while i < ids.len()
            invariant
                i <= ids@.len(),
                forall|j: int| 0 <= j < i ==> ids@[j] != d,
            decreases ids@.len() - i,
        {
            if ids[i] == d {
                assert(ids@[i as int] == d);
                return true;
            }
            i = i + 1;
        }
        false
    }

    /// Finds the dedicated device to reuse.
    fn find_reused(
        &self,
        instance: DagInstanceId,
        task: &Task,
        ids: &Vec<DeviceId>,
    ) -> (d: Option<DeviceId>)
        ensures
            d == reused(self.slots(), instance, task.affinity@, ids@),
    {
        let mut a: usize = 0;
        while a < task.affinity.len()
            invariant
                a <= task.affinity@.len(),
                reused(self.slots(), instance, task.affinity@.take(a as int), ids@) is None,
            decreases task.affinity@.len() - a,
        {
            proof {
                assert(task.affinity@.take(a as int + 1).drop_last() =~= task.affinity@.take(
                    a as int,
                ));
            }
            let key: u128 = Self::key_of(instance, task.affinity[a]);
            if let Some(d) = self.dedicated_devices.get(&key) {
                if Self::lists(ids, *d) {
                    proof {
                        lemma_reused_prefix(
                            self.slots(),
                            instance,
                            task.affinity@,
                            ids@,
                            a as int + 1,
                        );
                    }
                    return Some(*d);
                }
            }
            a = a + 1;
        }
        proof {
            assert(task.affinity@.take(a as int) =~= task.affinity@);
        }
        None
    }

    /// Chooses the device of an arriving job and dedicates it where needed.
    fn select_target_device(
        &mut self,
        job: &Job,
        task: &Task,
        view: &SchedulerView<'_>,
    ) -> (d: Option<DeviceId>)
        ensures
            d == target(old(self).slots(), job, task, view@),
            final(self).slots() == dedicated_after(old(self).slots(), job, task, view@),
    {
        let ids: Vec<DeviceId> = view.compatible_devices(task);
        match job.dag_provenance {
            Some(prov) => {
                if let Some(d) = self.find_reused(prov.dag_instance_id, task, &ids) {
                    return Some(d);
                }
                match placement::pick_least_loaded(view, &ids, true) {
                    Some(d) => {
                        let dt: DeviceType = match view.device(d) {
                            Some(device) => device.device_type,
                            None => DeviceType::Cpu,
                        };
                        self.dedicated_devices.insert(Self::key_of(prov.dag_instance_id, dt), d);
                        Some(d)
                    },
                    None => None,
                }
            },
            None => placement::pick_least_loaded(view, &ids, true),
        }
    }
}

impl Default for FederatedScheduler {
    fn default() -> (s: Self)
        ensures
            s.slots() == Map::<u128, DeviceId>::empty(),
    {
        FederatedScheduler { dedicated_devices: HashMap::new() }
    }
}

impl Scheduler for FederatedScheduler {
    open spec fn alike(&self, other: &Self) -> bool {
        self.slots() == other.slots()
    }

    open spec fn wants(&self, policy: ReevaluationPolicy) -> bool {
        policy is Disabled
    }

    open spec fn answers_arrival(
        &self,
        job: &Job,
        task: &Task,
        view: Sight,
        actions: Seq<Action>,
        after: &Self,
    ) -> bool {
        &&& actions =~= arrival(self.slots(), job, task, view)
        &&& after.slots() =~= dedicated_after(self.slots(), job, task, view)
    }

    open spec fn answers_completion(
        &self,
        job: &Job,
        device_id: DeviceId,
        view: Sight,
        actions: Seq<Action>,
        after: &Self,
    ) -> bool {
        &&& actions =~= rank::dispatch_of(
            rank::best_deadline(view.waiting_at(device_id)),
            device_id,
        )
        &&& after.slots() =~= self.slots()
    }

    open spec fn answers_point(
        &self,
        device_id: DeviceId,
        running_job: &Job,
        view: Sight,
        actions: Seq<Action>,
        after: &Self,
    ) -> bool {
        &&& actions =~= point(device_id, running_job, view)
        &&& after.slots() =~= self.slots()
    }

    open spec fn answers_change(
        &self,
        new_level: CriticalityLevel,
        trigger_job: &Job,
        view: Sight,
        actions: Seq<Action>,
        after: &Self,
    ) -> bool {
        &&& actions =~= fixed_priority::criticality_change(new_level, view)
        &&& after.slots() =~= self.slots()
    }

    open spec fn answers_idle(
        &self,
        device_id: DeviceId,
        view: Sight,
        actions: Seq<Action>,
        after: &Self,
    ) -> bool {
        &&& actions =~= rank::dispatch_of(
            rank::best_deadline(view.waiting_at(device_id)),
            device_id,
        )
        &&& after.slots() =~= self.slots()
    }

    open spec fn answers_reevaluation(
        &self,
        trigger: ReevaluationTrigger,
        view: Sight,
        actions: Seq<Action>,
        after: &Self,
    ) -> bool {
        actions =~= seq![Action::NoOp] && *after == *self
    }

    fn name(&self) -> (name: &str)
        ensures
            name@ == "Federated"@,
    {
        "Federated"
    }

    fn reevaluation_policy(&self) -> (policy: ReevaluationPolicy)
        ensures
            policy is Disabled,
    {
        ReevaluationPolicy::Disabled
    }

    fn on_job_arrival(&mut self, job: &Job, task: &Task, view: &SchedulerView<'_>) -> (actions: Vec<
        Action,
    >)
        ensures
            actions@ == arrival(old(self).slots(), job, task, view@),
            final(self).slots() == dedicated_after(old(self).slots(), job, task, view@),
    {
        match self.select_target_device(job, task, view) {
            Some(d) => {
                let running: Option<RunningJobInfo> = view.running_on_device(d);
                let preempts: bool = match running {
                    Some(r) => job.absolute_deadline < r.absolute_deadline
                        && placement::preemption_allowed(view, d, false),
                    None => false,
                };
                rank::place_job(job, d, running, preempts)
            },
            None => vec![Action::NoOp],
        }
    }

    fn on_job_complete(
        &mut self,
        _job: &Job,
        device_id: DeviceId,
        view: &SchedulerView<'_>,
    ) -> (actions: Vec<Action>)
        ensures
            actions@ == rank::dispatch_of(
                rank::best_deadline(view.waiting_at(device_id)),
                device_id,
            ),
            final(self).slots() == old(self).slots(),
    {
        rank::dispatch_next(rank::best_by_deadline(device_id, view), device_id)
    }

    fn on_preemption_point(
        &mut self,
        device_id: DeviceId,
        running_job: &Job,
        view: &SchedulerView<'_>,
    ) -> (actions: Vec<Action>)
        ensures
            actions@ == point(device_id, running_job, view@),
            final(self).slots() == old(self).slots(),
    {
        match rank::best_by_deadline(device_id, view) {
            Some(w) => {
                if w.absolute_deadline < running_job.absolute_deadline
                    && placement::preemption_allowed(view, device_id, true) {
                    vec![Action::Preempt { victim: running_job.id, by: w.job_id, device_id }]
                } else {
                    vec![Action::NoOp]
                }
            },
            None => vec![Action::NoOp],
        }
    }

    fn on_criticality_change(
        &mut self,
        new_level: CriticalityLevel,
        _trigger_job: &Job,
        view: &SchedulerView<'_>,
    ) -> (actions: Vec<Action>)
        ensures
            actions@ == fixed_priority::criticality_change(new_level, view@),
            final(self).slots() == old(self).slots(),
    {
        fixed_priority::change_criticality(new_level, view)
    }

    fn on_device_idle(&mut self, device_id: DeviceId, view: &SchedulerView<'_>) -> (actions: Vec<
        Action,
    >)
        ensures
            actions@ == rank::dispatch_of(
                rank::best_deadline(view.waiting_at(device_id)),
                device_id,
            ),
            final(self).slots() == old(self).slots(),
    {
        rank::dispatch_next(rank::best_by_deadline(device_id, view), device_id)
    }

    fn on_reevaluation(
        &mut self,
        _trigger: ReevaluationTrigger,
        _view: &SchedulerView<'_>,
    ) -> (actions: Vec<Action>)
        ensures
            actions@ == seq![Action::NoOp],
            *final(self) == *old(self),
    {
        vec![Action::NoOp]
    }
}

/// Two DAG instances, or two device types, never share a dedication.
pub proof fn law_slots_are_distinct(
    a: DagInstanceId,
    at: DeviceType,
    b: DagInstanceId,
    bt: DeviceType,
)
    ensures
        slot_key(a, at) == slot_key(b, bt) ==> a == b && at == bt,
{
}

/// Where nothing could be reused, a new dedication is what is reused.
proof fn lemma_dedication_is_reused(
    slots: Map<u128, DeviceId>,
    instance: DagInstanceId,
    affinity: Seq<DeviceType>,
    ids: Seq<DeviceId>,
    dt: DeviceType,
    d: DeviceId,
)
    requires
        reused(slots, instance, affinity, ids) is None,
        ids.contains(d),
    ensures
        reused(slots.insert(slot_key(instance, dt), d), instance, affinity, ids)
            == if affinity.contains(dt) {
            Some(d)
        } else {
            None
        },
    decreases affinity.len(),
{
    if affinity.len() > 0 {
        let rest = affinity.drop_last();
        lemma_dedication_is_reused(slots, instance, rest, ids, dt, d);
        law_slots_are_distinct(instance, affinity.last(), instance, dt);
        if rest.contains(dt) {
            let i = choose|i: int| 0 <= i < rest.len() && rest[i] == dt;
            assert(affinity[i] == dt);
        }
        if affinity.contains(dt) && affinity.last() != dt {
            let i = choose|i: int| 0 <= i < affinity.len() && affinity[i] == dt;
            assert(rest[i] == dt);
        }
        if affinity.last() == dt {
            assert(affinity[affinity.len() - 1] == dt);
        }
    }
}

/// Once a job of a DAG instance has been placed on a device of a type that its
/// task asks for, later jobs of the same task and instance go to that device
/// for as long as the same devices are there.
pub proof fn law_dag_instance_keeps_its_device(
    slots: Map<u128, DeviceId>,
    first: &Job,
    second: &Job,
    task: &Task,
    view: Sight,
    later: Sight,
)
    requires
        first.dag_provenance matches Some(p) && second.dag_provenance matches Some(q)
            && p.dag_instance_id == q.dag_instance_id,
        view.devices == later.devices,
        target(slots, first, task, view) matches Some(d) && task.affinity@.contains(
            listed_type(view, d),
        ),
    ensures
        target(dedicated_after(slots, first, task, view), second, task, later) == target(
            slots,
            first,
            task,
            view,
        ),
{
    let ids = view.compatible_with(task);
    let instance = first.dag_provenance->0.dag_instance_id;
    let aff = task.affinity@;
    let d = target(slots, first, task, view)->0;
    if reused(slots, instance, aff, ids) is None {
        crate::select::law_least_is_first_minimum(placement::load_keys(view, ids, true));
        let at = crate::select::least(placement::load_keys(view, ids, true))->0;
        assert(ids[at] == d);
        assert(ids.contains(d));
        lemma_dedication_is_reused(slots, instance, aff, ids, listed_type(view, d), d);
    }
}

} // verus!

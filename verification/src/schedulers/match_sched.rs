//! MATCH scheduler: deterministic mapping of tasks and allocation of jobs.

use crate::arith;
use crate::device::DeviceConfig;
use crate::ids::DeviceId;
use crate::job::Job;
use crate::scheduler::{
    Action, QueuedJobInfo, ReevaluationPolicy, ReevaluationTrigger, RunningJobInfo, Scheduler,
    SchedulerView, Sight,
};
use crate::schedulers::{gpreempt, placement, rank, rtgpu, tables, xsched};
use crate::select::{self, Key};
use crate::task::{CriticalityLevel, Task};
use std::collections::HashMap;
use vstd::prelude::*;

verus! {

broadcast use vstd::std_specs::hash::group_hash_axioms;

/// MATCH scheduler baseline with deterministic mapping and allocation.
#[derive(Debug)]
pub struct MatchScheduler {
    task_mapping: HashMap<u64, u64>,
    job_allocations: HashMap<u64, u64>,
}

/// WCET assumed on a device type that a task gives no model for.
pub const UNKNOWN_WCET: u64 = 2_305_843_009_213_693_951;

/// Allocation pressure, service cost, whether a job runs, queue length and id
/// of a device.
pub open spec fn cost_key(task: &Task, device: DeviceConfig, view: Sight) -> Key {
    let service = rtgpu::service_time(task, device, UNKNOWN_WCET);
    let running: u64 = if view.running_at(device.id) is Some {
        1
    } else {
        0
    };
    let waiting = view.waiting_at(device.id).len() as u64;
    Key {
        k0: arith::sat_mul(arith::sat_add(waiting, running), service) as i128,
        k1: service as i128,
        k2: running as i128,
        k3: waiting as i128,
        k4: device.id.0 as i128,
        k5: 0,
    }
}

/// Cost keys of the devices at a list of places.
pub open spec fn cost_keys(task: &Task, places: Seq<int>, view: Sight) -> Seq<Key> {
    Seq::new(places.len(), |i: int| cost_key(task, view.devices[places[i]], view))
}

/// The cheapest device for a task.
pub open spec fn cheapest(task: &Task, view: Sight) -> Option<DeviceId> {
    let places = placement::compatible_places(task.affinity@, view.devices);
    match select::least(cost_keys(task, places, view)) {
        Some(i) => Some(view.devices[places[i]].id),
        None => None,
    }
}

/// Whether a task can run on a device.
pub open spec fn suits(task: &Task, view: Sight, d: u64) -> bool {
    let places = placement::compatible_places(task.affinity@, view.devices);
    exists|i: int| 0 <= i < places.len() && view.devices[#[trigger] places[i]].id.0 == d
}

/// Whether a device is there.
pub open spec fn listed(view: Sight, d: u64) -> bool {
    exists|i: int| 0 <= i < view.devices.len() && (#[trigger] view.devices[i]).id.0 == d
}

/// Whether a task has a job that runs.
pub open spec fn task_runs(view: Sight, id: u64) -> bool {
    exists|i: int|
        0 <= i < tables::running_list(view.running_jobs).len() && (#[trigger] tables::running_list(
            view.running_jobs,
        )[i]).task_id.0 == id
}

/// Whether a task has a job that waits.
pub open spec fn task_waits(view: Sight, id: u64) -> bool {
    exists|i: int|
        0 <= i < tables::waiting_list(view.ready_queues).len() && (#[trigger] tables::waiting_list(
            view.ready_queues,
        )[i]).task_id.0 == id
}

/// A table of jobs after a view is seen: entries of visible jobs on listed
/// devices stay.
pub open spec fn kept_jobs(table: Map<u64, u64>, view: Sight) -> Map<u64, u64> {
    Map::new(
        |id: u64|
            table.contains_key(id) && (tables::runs(view, id) || tables::waits(view, id)) && listed(
                view,
                table[id],
            ),
        |id: u64| table[id],
    )
}

/// A table of tasks after a view is seen: entries of tasks with visible jobs
/// on listed devices stay.
pub open spec fn kept_tasks(table: Map<u64, u64>, view: Sight) -> Map<u64, u64> {
    Map::new(
        |id: u64|
            table.contains_key(id) && (task_runs(view, id) || task_waits(view, id)) && listed(
                view,
                table[id],
            ),
        |id: u64| table[id],
    )
}

/// The device that an arriving job goes to, given the mapping at that time:
/// the mapped one while it suits the task, else the cheapest one.
pub open spec fn target(mapping: Map<u64, u64>, task: &Task, view: Sight) -> Option<
    DeviceId,
> {
    let id = task.id.0 as u64;
    if mapping.contains_key(id) && suits(task, view, mapping[id]) {
        Some(DeviceId(mapping[id] as u32))
    } else {
        cheapest(task, view)
    }
}

/// The mapping after an arrival.
pub open spec fn mapped(mapping: Map<u64, u64>, task: &Task, view: Sight) -> Map<
    u64,
    u64,
> {
    match target(mapping, task, view) {
        Some(d) => mapping.insert(task.id.0 as u64, d.0 as u64),
        None => mapping,
    }
}

/// What an arriving job does.
pub open spec fn arrival(
    mapping: Map<u64, u64>,
    job: &Job,
    task: &Task,
    view: Sight,
) -> Seq<Action> {
    match target(mapping, task, view) {
        Some(d) => rank::place(
            job,
            d,
            view.running_at(d),
            view.running_at(d) matches Some(r) && rank::arrival_critical(task, job).less(
                rank::running_critical(r),
            ) && placement::may_preempt(view, d, false),
        ),
        None => seq![Action::NoOp],
    }
}

/// Builds the cost key of a device.
fn make_cost_key(task: &Task, device: &DeviceConfig, view: &SchedulerView<'_>) -> (key: Key)
    ensures
        key == cost_key(task, *device, view@),
{
    let service: u64 = rtgpu::estimated_service_ns(task, device, UNKNOWN_WCET);
    let running: u64 = match view.running_on_device(device.id) {
        Some(_) => 1,
        None => 0,
    };
    let waiting: u64 = view.queue_len(device.id) as u64;
    let pressure: u64 = arith::saturating_mul(waiting.saturating_add(running), service);
    Key {
        k0: pressure as i128,
        k1: service as i128,
        k2: running as i128,
        k3: waiting as i128,
        k4: device.id.0 as i128,
        k5: 0,
    }
}

/// Finds the cheapest of the devices at the listed places.
fn pick_cheapest(task: &Task, places: &Vec<usize>, view: &SchedulerView<'_>) -> (d: Option<DeviceId>)
    requires
        places@.map_values(|p: usize| p as int) == placement::compatible_places(
            task.affinity@,
            view@.devices,
        ),
        forall|i: int| 0 <= i < places@.len() ==> #[trigger] places@[i] < view@.devices.len(),
    ensures
        d == cheapest(task, view@),
{
    let ghost at_places = placement::compatible_places(task.affinity@, view@.devices);
    let mut keys: Vec<Key> = Vec::new();
    let mut i: usize = 0;
    while i < places.len()
        invariant
            i <= places@.len(),
            keys@.len() == i,
            at_places == places@.map_values(|p: usize| p as int),
            forall|k: int| 0 <= k < places@.len() ==> #[trigger] places@[k] < view@.devices.len(),
            forall|j: int|
                0 <= j < i ==> #[trigger] keys@[j] == cost_key(
                    task,
                    view@.devices[at_places[j]],
                    view@,
                ),
        decreases places@.len() - i,
    {
        keys.push(make_cost_key(task, &view.devices[places[i]], view));
        i = i + 1;
    }
    proof {
        assert(keys@ =~= cost_keys(task, at_places, view@));
    }
    match select::find_least(&keys) {
        Some(at) => Some(view.devices[places[at]].id),
        None => None,
    }
}

/// Tells whether a device is there.
fn is_listed(view: &SchedulerView<'_>, d: u64) -> (yes: bool)
    ensures
        yes == listed(view@, d),
{
    let mut i: usize = 0;
    while i < view.devices.len()
        invariant
            i <= view@.devices.len(),
            forall|j: int| 0 <= j < i ==> (#[trigger] view@.devices[j]).id.0 != d,
        decreases view@.devices.len() - i,
    {
        if view.devices[i].id.0 as u64 == d {
            assert(view@.devices[i as int].id.0 == d);
            return true;
        }
        i = i + 1;
    }
    false
}

/// Keeps the entries of a table whose keys are listed and whose device is
/// there.
fn retain_there(table: &HashMap<u64, u64>, ids: &Vec<u64>, view: &SchedulerView<'_>) -> (kept:
    HashMap<u64, u64>)
    ensures
        forall|id: u64| #[trigger]
            kept@.contains_key(id) <==> table@.contains_key(id) && ids@.contains(id) && listed(
                view@,
                table@[id],
            ),
        forall|id: u64| #[trigger] kept@.contains_key(id) ==> kept@[id] == table@[id],
{
    let listed_only: HashMap<u64, u64> = tables::retain_listed(table, ids);
    let mut kept: HashMap<u64, u64> = HashMap::new();
    let mut i: usize = 0;
    while i < ids.len()
        invariant
            i <= ids@.len(),
            listed_only@ == table@.restrict(Set::new(|id: u64| ids@.contains(id))),
            forall|id: u64| #[trigger]
                kept@.contains_key(id) <==> listed_only@.contains_key(id) && ids@.take(
                    i as int,
                ).contains(id) && listed(view@, table@[id]),
            forall|id: u64| #[trigger] kept@.contains_key(id) ==> kept@[id] == table@[id],
        decreases ids@.len() - i,
    {
        proof {
            let t = ids@.take(i as int);
            let x = ids@[i as int];
            assert(ids@.take(i as int + 1) =~= t.push(x));
            assert forall|id: u64| t.push(x).contains(id) <==> t.contains(id) || id == x by {
                if t.contains(id) {
                    let j = choose|j: int| 0 <= j < t.len() && t[j] == id;
                    assert(t.push(x)[j] == id);
                }
                if id == x {
                    assert(t.push(x)[t.len() as int] == id);
                }
            }
        }
        match listed_only.get(&ids[i]) {
            Some(d) => {
                if is_listed(view, *d) {
                    kept.insert(ids[i], *d);
                }
            },
            None => {},
        }
        i = i + 1;
    }
    proof {
        assert(ids@.take(i as int) =~= ids@);
    }
    kept
}

/// Lists the ids of the tasks with running or waiting jobs.
fn list_visible_tasks(view: &SchedulerView<'_>) -> (ids: Vec<u64>)
    ensures
        forall|id: u64| #[trigger]
            ids@.contains(id) <==> (task_runs(view@, id) || task_waits(view@, id)),
{
    let running: Vec<RunningJobInfo> = tables::list_running(view);
    let waiting: Vec<QueuedJobInfo> = tables::list_waiting(view);
    let mut ids: Vec<u64> = Vec::new();
    let mut i: usize = 0;
    while i < running.len()
        invariant
            i <= running@.len(),
            ids@.len() == i,
            forall|j: int| 0 <= j < i ==> #[trigger] ids@[j] == running@[j].task_id.0,
        decreases running@.len() - i,
    {
        ids.push(running[i].task_id.0 as u64);
        i = i + 1;
    }
    let mut k: usize = 0;
    while k < waiting.len()
        invariant
            k <= waiting@.len(),
            ids@.len() == running@.len() + k,
            forall|j: int| 0 <= j < running@.len() ==> #[trigger] ids@[j] == running@[j].task_id.0,
            forall|j: int|
                running@.len() <= j < ids@.len() ==> #[trigger] ids@[j] == waiting@[j
                    - running@.len()].task_id.0,
        decreases waiting@.len() - k,
    {
        ids.push(waiting[k].task_id.0 as u64);
        k = k + 1;
    }
    proof {
        assert forall|id: u64| #[trigger] ids@.contains(id) <==> (task_runs(view@, id)
            || task_waits(view@, id)) by {
            if ids@.contains(id) {
                let j = choose|j: int| 0 <= j < ids@.len() && ids@[j] == id;
                if j < running@.len() {
                    assert(running@[j].task_id.0 == id);
                } else {
                    assert(waiting@[j - running@.len()].task_id.0 == id);
                }
            }
            if task_runs(view@, id) {
                let j = choose|j: int|
                    0 <= j < running@.len() && (#[trigger] running@[j]).task_id.0 == id;
                assert(ids@[j] == id);
            }
            if task_waits(view@, id) {
                let j = choose|j: int|
                    0 <= j < waiting@.len() && (#[trigger] waiting@[j]).task_id.0 == id;
                assert(ids@[running@.len() + j] == id);
            }
        }
    }
    ids
}

impl MatchScheduler {
    /// Tables hold device ids.
    #[verifier::type_invariant]
    spec fn holds_device_ids(self) -> bool {
        forall|id: u64| #[trigger]
            self.task_mapping@.contains_key(id) ==> self.task_mapping@[id] <= u32::MAX
    }

    /// The device that each known task is mapped to.
    pub closed spec fn mapping(&self) -> Map<u64, u64> {
        self.task_mapping@
    }

    /// The device that each known job is allocated to.
    pub closed spec fn allocations(&self) -> Map<u64, u64> {
        self.job_allocations@
    }

    /// Forgets what the view no longer shows.
    fn observe_view(&mut self, view: &SchedulerView<'_>)
        ensures
            final(self).allocations() == kept_jobs(old(self).allocations(), view@),
            final(self).mapping() == kept_tasks(old(self).mapping(), view@),
    {
        proof {
            use_type_invariant(&*self);
        }
        let jobs: Vec<u64> = tables::list_visible_ids(view);
        let tasks: Vec<u64> = list_visible_tasks(view);
        let kept_allocations: HashMap<u64, u64> = retain_there(&self.job_allocations, &jobs, view);
        let kept_mapping: HashMap<u64, u64> = retain_there(&self.task_mapping, &tasks, view);
        proof {
            assert(kept_allocations@ =~= kept_jobs(self.job_allocations@, view@));
            assert(kept_mapping@ =~= kept_tasks(self.task_mapping@, view@));
        }
        self.job_allocations = kept_allocations;
        self.task_mapping = kept_mapping;
    }

    /// Chooses the device of a task and maps the task to it.
    fn choose_target_device(&mut self, task: &Task, view: &SchedulerView<'_>) -> (d: Option<
        DeviceId,
    >)
        ensures
            d == target(old(self).mapping(), task, view@),
            final(self).mapping() == mapped(old(self).mapping(), task, view@),
            final(self).allocations() == old(self).allocations(),
    {
        proof {
            use_type_invariant(&*self);
        }
        let places: Vec<usize> = placement::list_places(&task.affinity, view.devices);
        let ghost at_places = placement::compatible_places(task.affinity@, view@.devices);
        let id: u64 = task.id.0 as u64;
        if let Some(m) = self.task_mapping.get(&id) {
            let m: u64 = *m;
            let mut i: usize = 0;
            while i < places.len()
                invariant
                    i <= places@.len(),
                    self.mapping() == old(self).mapping(),
                    self.allocations() == old(self).allocations(),
                    old(self).mapping().contains_key(id),
                    old(self).mapping()[id] == m,
                    m <= u32::MAX,
                    id == task.id.0,
                    at_places == placement::compatible_places(task.affinity@, view@.devices),
                    at_places == places@.map_values(|p: usize| p as int),
                    forall|k: int|
                        0 <= k < places@.len() ==> #[trigger] places@[k] < view@.devices.len(),
                    forall|j: int|
                        0 <= j < i ==> view@.devices[#[trigger] at_places[j]].id.0 != m,
                decreases places@.len() - i,
            {
                if view.devices[places[i]].id.0 as u64 == m {
                    proof {
                        assert(view@.devices[at_places[i as int]].id.0 == m);
                        assert(suits(task, view@, m));
                        assert(self.mapping() =~= self.mapping().insert(id, m));
                    }
                    return Some(DeviceId(m as u32));
                }
                i = i + 1;
            }
            assert(!suits(task, view@, m));
        }
        match pick_cheapest(task, &places, view) {
            Some(d) => {
                let mut table: HashMap<u64, u64> = HashMap::new();
                std::mem::swap(&mut table, &mut self.task_mapping);
                table.insert(id, d.0 as u64);
                self.task_mapping = table;
                Some(d)
            },
            None => None,
        }
    }
}

impl Default for MatchScheduler {
    fn default() -> (s: Self)
        ensures
            s.mapping() == Map::<u64, u64>::empty(),
            s.allocations() == Map::<u64, u64>::empty(),
    {
        MatchScheduler { task_mapping: HashMap::new(), job_allocations: HashMap::new() }
    }
}

impl Scheduler for MatchScheduler {
    open spec fn alike(&self, other: &Self) -> bool {
        self.mapping() == other.mapping() && self.allocations() == other.allocations()
    }

    open spec fn wants(&self, policy: ReevaluationPolicy) -> bool {
        policy is Disabled
    }

    open spec fn answers_arrival(
        &self,
        job: &Job,
        task: &Task,
        view: Sight,
        actions: Seq<Action>,
        after: &Self,
    ) -> bool {
        &&& actions =~= arrival(kept_tasks(self.mapping(), view), job, task, view)
        &&& after.mapping() =~= mapped(kept_tasks(self.mapping(), view), task, view)
        &&& after.allocations() =~= match target(
            kept_tasks(self.mapping(), view),
            task,
            view,
        ) {
            Some(d) => kept_jobs(self.allocations(), view).insert(job.id.0, d.0 as u64),
            None => kept_jobs(self.allocations(), view),
        }
    }

    open spec fn answers_completion(
        &self,
        job: &Job,
        device_id: DeviceId,
        view: Sight,
        actions: Seq<Action>,
        after: &Self,
    ) -> bool {
        &&& actions =~= rank::dispatch_of(
            rank::best_critical(view.waiting_at(device_id)),
            device_id,
        )
        &&& after.mapping() =~= kept_tasks(self.mapping(), view)
        &&& after.allocations() =~= kept_jobs(
            self.allocations().remove(job.id.0),
            view,
        )
    }

    open spec fn answers_point(
        &self,
        device_id: DeviceId,
        running_job: &Job,
        view: Sight,
        actions: Seq<Action>,
        after: &Self,
    ) -> bool {
        &&& actions =~= gpreempt::point(device_id, running_job, view)
        &&& after.mapping() =~= kept_tasks(self.mapping(), view)
        &&& after.allocations() =~= kept_jobs(self.allocations(), view)
    }

    open spec fn answers_change(
        &self,
        new_level: CriticalityLevel,
        trigger_job: &Job,
        view: Sight,
        actions: Seq<Action>,
        after: &Self,
    ) -> bool {
        &&& actions =~= xsched::criticality_change(new_level, view)
        &&& after.mapping() =~= kept_tasks(self.mapping(), view)
        &&& after.allocations() =~= kept_jobs(self.allocations(), view)
    }

    open spec fn answers_idle(
        &self,
        device_id: DeviceId,
        view: Sight,
        actions: Seq<Action>,
        after: &Self,
    ) -> bool {
        &&& actions =~= rank::dispatch_of(
            rank::best_critical(view.waiting_at(device_id)),
            device_id,
        )
        &&& after.mapping() =~= kept_tasks(self.mapping(), view)
        &&& after.allocations() =~= kept_jobs(self.allocations(), view)
    }

    open spec fn answers_reevaluation(
        &self,
        trigger: ReevaluationTrigger,
        view: Sight,
        actions: Seq<Action>,
        after: &Self,
    ) -> bool {
        actions =~= seq![Action::NoOp] && *after == *self
    }

    fn name(&self) -> (name: &str)
        ensures
            name@ == "MATCH"@,
    {
        "MATCH"
    }

    fn reevaluation_policy(&self) -> (policy: ReevaluationPolicy)
        ensures
            policy is Disabled,
    {
        ReevaluationPolicy::Disabled
    }

    fn on_job_arrival(&mut self, job: &Job, task: &Task, view: &SchedulerView<'_>) -> (actions: Vec<
        Action,
    >)
        ensures
            actions@ == arrival(kept_tasks(old(self).mapping(), view@), job, task, view@),
            final(self).mapping() == mapped(kept_tasks(old(self).mapping(), view@), task, view@),
            final(self).allocations() == match target(
                kept_tasks(old(self).mapping(), view@),
                task,
                view@,
            ) {
                Some(d) => kept_jobs(old(self).allocations(), view@).insert(job.id.0, d.0 as u64),
                None => kept_jobs(old(self).allocations(), view@),
            },
    {
        self.observe_view(view);
        let d: DeviceId = match self.choose_target_device(task, view) {
            Some(d) => d,
            None => {
                return vec![Action::NoOp];
            },
        };
        proof {
            use_type_invariant(&*self);
        }
        let mut table: HashMap<u64, u64> = HashMap::new();
        std::mem::swap(&mut table, &mut self.job_allocations);
        table.insert(job.id.0, d.0 as u64);
        self.job_allocations = table;
        let running: Option<RunningJobInfo> = view.running_on_device(d);
        let preempts: bool = match running {
            Some(r) => rank::arrival_rank(task, job).is_less(&rank::running_rank(&r))
                && placement::preemption_allowed(view, d, false),
            None => false,
        };
        rank::place_job(job, d, running, preempts)
    }

    fn on_job_complete(
        &mut self,
        job: &Job,
        device_id: DeviceId,
        view: &SchedulerView<'_>,
    ) -> (actions: Vec<Action>)
        ensures
            actions@ == rank::dispatch_of(
                rank::best_critical(view.waiting_at(device_id)),
                device_id,
            ),
            final(self).mapping() == kept_tasks(old(self).mapping(), view@),
            final(self).allocations() == kept_jobs(
                old(self).allocations().remove(job.id.0),
                view@,
            ),
    {
        proof {
            use_type_invariant(&*self);
        }
        let mut table: HashMap<u64, u64> = HashMap::new();
        std::mem::swap(&mut table, &mut self.job_allocations);
        table.remove(&job.id.0);
        self.job_allocations = table;
        self.observe_view(view);
        rank::dispatch_next(rank::best_by_criticality(device_id, view), device_id)
    }

    fn on_preemption_point(
        &mut self,
        device_id: DeviceId,
        running_job: &Job,
        view: &SchedulerView<'_>,
    ) -> (actions: Vec<Action>)
        ensures
            actions@ == gpreempt::point(device_id, running_job, view@),
            final(self).mapping() == kept_tasks(old(self).mapping(), view@),
            final(self).allocations() == kept_jobs(old(self).allocations(), view@),
    {
        self.observe_view(view);
        if placement::preemption_allowed(view, device_id, true) {
            xsched::preempt_by_rank(device_id, running_job, view)
        } else {
            vec![Action::NoOp]
        }
    }

    fn on_criticality_change(
        &mut self,
        new_level: CriticalityLevel,
        _trigger_job: &Job,
        view: &SchedulerView<'_>,
    ) -> (actions: Vec<Action>)
        ensures
            actions@ == xsched::criticality_change(new_level, view@),
            final(self).mapping() == kept_tasks(old(self).mapping(), view@),
            final(self).allocations() == kept_jobs(old(self).allocations(), view@),
    {
        self.observe_view(view);
        xsched::change_criticality(new_level, view)
    }

    fn on_device_idle(&mut self, device_id: DeviceId, view: &SchedulerView<'_>) -> (actions: Vec<
        Action,
    >)
        ensures
            actions@ == rank::dispatch_of(
                rank::best_critical(view.waiting_at(device_id)),
                device_id,
            ),
            final(self).mapping() == kept_tasks(old(self).mapping(), view@),
            final(self).allocations() == kept_jobs(old(self).allocations(), view@),
    {
        self.observe_view(view);
        rank::dispatch_next(rank::best_by_criticality(device_id, view), device_id)
    }

    fn on_reevaluation(
        &mut self,
        _trigger: ReevaluationTrigger,
        _view: &SchedulerView<'_>,
    ) -> (actions: Vec<Action>)
        ensures
            actions@ == seq![Action::NoOp],
            *final(self) == *old(self),
    {
        vec![Action::NoOp]
    }
}

/// A task that has been mapped keeps its device for as long as one of its jobs
/// is visible, the device is there and the task can run on it.
pub proof fn law_mapping_is_sticky(
    mapping: Map<u64, u64>,
    task: &Task,
    view: Sight,
)
    requires
        mapping.contains_key(task.id.0 as u64),
        task_runs(view, task.id.0 as u64) || task_waits(view, task.id.0 as u64),
        suits(task, view, mapping[task.id.0 as u64]),
    ensures
        target(kept_tasks(mapping, view), task, view) == Some(
            DeviceId(mapping[task.id.0 as u64] as u32),
        ),
{
    let places = placement::compatible_places(task.affinity@, view.devices);
    let m = mapping[task.id.0 as u64];
    let i = choose|i: int|
        0 <= i < places.len() && view.devices[#[trigger] places[i]].id.0 == m;
    placement::lemma_places_in_range(task.affinity@, view.devices);
    assert(listed(view, m));
}

} // verus!

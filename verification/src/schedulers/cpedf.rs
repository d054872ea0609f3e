//! Critical-path-aware earliest deadline first.

use crate::device::DeviceConfig;
use crate::ids::DeviceId;
use crate::job::Job;
use crate::scheduler::{
    Action, QueuedJobInfo, ReevaluationPolicy, ReevaluationTrigger, RunningJobInfo, Scheduler,
    SchedulerView, Sight,
};
use crate::schedulers::progress::{Progress, ProgressTracker};
use crate::schedulers::{fixed_priority, placement, rank, tables};
use crate::select::{self, Key};
use crate::task::{CriticalityLevel, DeviceType, ExecutionTimeModel, Task};
use std::collections::HashMap;
use vstd::prelude::*;

verus! {

broadcast use vstd::std_specs::hash::group_hash_axioms;

/// Critical-path-aware EDF baseline scheduler for DAG-heavy workloads.
#[derive(Debug)]
pub struct CpEdfScheduler {
    tracker: ProgressTracker,
    dag_stage: HashMap<u64, u64>,
}

/// The greatest WCET of a list of models, zero for an empty list.
pub open spec fn greatest_wcet(times: Seq<(DeviceType, ExecutionTimeModel)>) -> u64
    decreases times.len(),
{
    if times.len() == 0 {
        0
    } else {
        let rest = greatest_wcet(times.drop_last());
        if times.last().1.worst() > rest {
            times.last().1.worst()
        } else {
            rest
        }
    }
}

/// The work to assume for a job: its execution time where that is known, else
/// the WCET on the target device type, else the greatest WCET of its task.
pub open spec fn remaining_work(job: &Job, task: &Task, target: DeviceType) -> u64 {
    match job.actual_exec_ns {
        Some(ns) => ns,
        None => match task.worst_on(target) {
            Some(wcet) => wcet,
            None => greatest_wcet(task.exec_times@),
        },
    }
}

/// Deeper DAG nodes come first; jobs of no DAG come last.
pub open spec fn stage_key(stages: Map<u64, u64>, id: u64) -> i128 {
    if stages.contains_key(id) {
        (u32::MAX - stages[id]) as i128
    } else {
        u32::MAX as i128
    }
}

/// Slack, deadline, DAG stage, release, id.
pub open spec fn slack_key(
    now: u64,
    id: u64,
    deadline: u64,
    release: u64,
    p: Progress,
    stages: Map<u64, u64>,
) -> Key {
    Key {
        k0: (deadline - now - p.remaining_of(id)) as i128,
        k1: deadline as i128,
        k2: stage_key(stages, id),
        k3: release as i128,
        k4: id as i128,
        k5: 0,
    }
}

/// Key of a waiting job.
pub open spec fn waiting_key(
    q: QueuedJobInfo,
    now: u64,
    p: Progress,
    stages: Map<u64, u64>,
) -> Key {
    slack_key(now, q.job_id.0, q.absolute_deadline, q.release_time, p, stages)
}

/// Key of a running job.
pub open spec fn running_key(
    r: RunningJobInfo,
    now: u64,
    p: Progress,
    stages: Map<u64, u64>,
) -> Key {
    slack_key(now, r.job_id.0, r.absolute_deadline, r.release_time, p, stages)
}

/// Keys of a queue.
pub open spec fn waiting_keys(
    queue: Seq<QueuedJobInfo>,
    now: u64,
    p: Progress,
    stages: Map<u64, u64>,
) -> Seq<Key> {
    Seq::new(queue.len(), |i: int| waiting_key(queue[i], now, p, stages))
}

/// The waiting job that comes first.
pub open spec fn best_slack(
    queue: Seq<QueuedJobInfo>,
    now: u64,
    p: Progress,
    stages: Map<u64, u64>,
) -> Option<QueuedJobInfo> {
    select::item_at(queue, select::least(waiting_keys(queue, now, p, stages)))
}

/// Whether a list holds a device of an id and a type.
pub open spec fn has_device(devices: Seq<DeviceConfig>, d: DeviceId, dt: DeviceType) -> bool {
    exists|i: int|
        0 <= i < devices.len() && (#[trigger] devices[i]).id == d && devices[i].device_type == dt
}

/// The first affinity that a device answers.
pub open spec fn answered_type(
    affinity: Seq<DeviceType>,
    devices: Seq<DeviceConfig>,
    d: DeviceId,
) -> Option<DeviceType>
    decreases affinity.len(),
{
    if affinity.len() == 0 {
        None
    } else {
        match answered_type(affinity.drop_last(), devices, d) {
            Some(dt) => Some(dt),
            None => if has_device(devices, d, affinity.last()) {
                Some(affinity.last())
            } else {
                None
            },
        }
    }
}

/// The device type that a task runs as on a device.
pub open spec fn type_of(view: Sight, task: &Task, d: DeviceId) -> DeviceType {
    match answered_type(task.affinity@, view.devices, d) {
        Some(dt) => dt,
        None => DeviceType::Cpu,
    }
}

/// Stages after a view is observed: those of the jobs that it shows.
pub open spec fn observed_stages(stages: Map<u64, u64>, view: Sight) -> Map<u64, u64> {
    stages.restrict(tables::visible_ids(view))
}

/// Stages after a job's arrival.
pub open spec fn arrived_stages(stages: Map<u64, u64>, job: &Job) -> Map<u64, u64> {
    match job.dag_provenance {
        Some(prov) => stages.insert(job.id.0, prov.node.0 as u64),
        None => stages.remove(job.id.0),
    }
}

/// The device that an arriving job goes to.
pub open spec fn target(view: Sight, task: &Task) -> Option<DeviceId> {
    placement::least_loaded(view, view.compatible_with(task), true)
}

/// What an arriving job does on its device, with what is known after its
/// arrival.
pub open spec fn arrival(
    job: &Job,
    d: DeviceId,
    view: Sight,
    p: Progress,
    stages: Map<u64, u64>,
) -> Seq<Action> {
    rank::place(
        job,
        d,
        view.running_at(d),
        view.running_at(d) matches Some(r) && slack_key(
            view.now,
            job.id.0,
            job.absolute_deadline,
            job.release_time,
            p,
            stages,
        ).less(running_key(r, view.now, p, stages)) && placement::may_preempt(view, d, false),
    )
}

/// What happens at a preemption point, with what is known then.
pub open spec fn point(
    d: DeviceId,
    running: &Job,
    view: Sight,
    p: Progress,
    stages: Map<u64, u64>,
) -> Seq<Action> {
    match (view.running_at(d), best_slack(view.waiting_at(d), view.now, p, stages)) {
        (Some(r), Some(w)) if waiting_key(w, view.now, p, stages).less(
            running_key(r, view.now, p, stages),
        ) && placement::may_preempt(view, d, true) => seq![
            Action::Preempt { victim: running.id, by: w.job_id, device_id: d },
        ],
        _ => seq![Action::NoOp],
    }
}

/// An affinity answered in a prefix is the one answered in the whole.
proof fn lemma_answered_prefix(
    affinity: Seq<DeviceType>,
    devices: Seq<DeviceConfig>,
    d: DeviceId,
    n: int,
)
    requires
        0 <= n <= affinity.len(),
        answered_type(affinity.take(n), devices, d) is Some,
    ensures
        answered_type(affinity, devices, d) == answered_type(affinity.take(n), devices, d),
    decreases affinity.len() - n,
{
    if n == affinity.len() {
        assert(affinity.take(n) =~= affinity);
    } else {
        assert(affinity.take(n + 1).drop_last() =~= affinity.take(n));
        lemma_answered_prefix(affinity, devices, d, n + 1);
    }
}

/// Finds the device type that a task runs as on a device.
fn find_type(view: &SchedulerView<'_>, task: &Task, d: DeviceId) -> (dt: DeviceType)
    ensures
        dt == type_of(view@, task, d),
{
    let mut a: usize = 0;
    while a < task.affinity.len()
        invariant
            a <= task.affinity@.len(),
            answered_type(task.affinity@.take(a as int), view@.devices, d) is None,
        decreases task.affinity@.len() - a,
    {
        let dt: DeviceType = task.affinity[a];
        proof {
            assert(task.affinity@.take(a as int + 1).drop_last() =~= task.affinity@.take(
                a as int,
            ));
        }
        let mut i: usize = 0;
        while i < view.devices.len()
            invariant
                a < task.affinity@.len(),
                dt == task.affinity@[a as int],
                i <= view@.devices.len(),
                task.affinity@.take(a as int + 1).drop_last() == task.affinity@.take(a as int),
                answered_type(task.affinity@.take(a as int), view@.devices, d) is None,
                forall|j: int|
                    0 <= j < i ==> !((#[trigger] view@.devices[j]).id == d
                        && view@.devices[j].device_type == dt),
            decreases view@.devices.len() - i,
        {
            if view.devices[i].id == d && view.devices[i].device_type == dt {
                proof {
                    assert(has_device(view@.devices, d, dt));
                    lemma_answered_prefix(task.affinity@, view@.devices, d, a as int + 1);
                }
                return dt;
            }
            i = i + 1;
        }
        a = a + 1;
    }
    proof {
        assert(task.affinity@.take(a as int) =~= task.affinity@);
    }
    DeviceType::Cpu
}

impl CpEdfScheduler {
    /// Stages fit the node index they come from.
    #[verifier::type_invariant]
    spec fn stages_are_nodes(self) -> bool {
        forall|id: u64| #[trigger]
            self.dag_stage@.contains_key(id) ==> self.dag_stage@[id] <= u32::MAX
    }

    /// What the scheduler knows of the remaining work of jobs.
    pub closed spec fn progress(&self) -> Progress {
        self.tracker.view()
    }

    /// DAG node index of each known job that belongs to a DAG.
    pub closed spec fn stages(&self) -> Map<u64, u64> {
        self.dag_stage@
    }

    /// Observes a view.
    fn observe_view(&mut self, view: &SchedulerView<'_>)
        ensures
            final(self).progress() == old(self).progress().observed(view@),
            final(self).stages() == observed_stages(old(self).stages(), view@),
    {
        proof {
            use_type_invariant(&*self);
        }
        let mut tracker = ProgressTracker::new();
        std::mem::swap(&mut tracker, &mut self.tracker);
        tracker.observe(view);
        let visible: Vec<u64> = tables::list_visible_ids(view);
        let kept: HashMap<u64, u64> = tables::retain_listed(&self.dag_stage, &visible);
        proof {
            assert(Set::new(|id: u64| visible@.contains(id)) =~= tables::visible_ids(view@));
        }
        self.dag_stage = kept;
        self.tracker = tracker;
    }

    /// Computes the work to assume for a job.
    fn estimate_remaining_work_ns(job: &Job, task: &Task, target: DeviceType) -> (work: u64)
        ensures
            work == remaining_work(job, task, target),
    {
        match job.actual_exec_ns {
            Some(ns) => ns,
            None => match task.wcet_on(target) {
                Some(wcet) => wcet,
                None => {
                    let mut greatest: u64 = 0;
                    let mut i: usize = 0;
                    while i < task.exec_times.len()
                        invariant
                            i <= task.exec_times@.len(),
                            greatest == greatest_wcet(task.exec_times@.take(i as int)),
                        decreases task.exec_times@.len() - i,
                    {
                        let wcet: u64 = task.exec_times[i].1.wcet();
                        if wcet > greatest {
                            greatest = wcet;
                        }
                        proof {
                            assert(task.exec_times@.take(i as int + 1).drop_last()
                                =~= task.exec_times@.take(i as int));
                        }
                        i = i + 1;
                    }
                    proof {
                        assert(task.exec_times@.take(i as int) =~= task.exec_times@);
                    }
                    greatest
                },
            },
        }
    }

    /// Builds the key of a job.
    fn rank_of(&self, now: u64, id: u64, deadline: u64, release: u64) -> (key: Key)
        ensures
            key == slack_key(now, id, deadline, release, self.progress(), self.stages()),
    {
        proof {
            use_type_invariant(self);
        }
        let k0: i128 = deadline as i128 - now as i128 - self.tracker.remaining(id) as i128;
        let k2: i128 = match self.dag_stage.get(&id) {
            Some(stage) => u32::MAX as i128 - *stage as i128,
            None => u32::MAX as i128,
        };
        Key { k0, k1: deadline as i128, k2, k3: release as i128, k4: id as i128, k5: 0 }
    }

    /// Finds the waiting job of a device that comes first.
    fn best_waiting_job(&self, d: DeviceId, view: &SchedulerView<'_>) -> (next: Option<
        QueuedJobInfo,
    >)
        ensures
            next == best_slack(view.waiting_at(d), view.now, self.progress(), self.stages()),
    {
        let queue: &Vec<QueuedJobInfo> = match view.queue_for_device(d) {
            Some(q) => q,
            None => {
                return None;
            },
        };
        let mut keys: Vec<Key> = Vec::new();
        let mut i: usize = 0;
        while i < queue.len()
            invariant
                i <= queue@.len(),
                keys@.len() == i,
                forall|j: int|
                    0 <= j < i ==> #[trigger] keys@[j] == waiting_key(
                        queue@[j],
                        view.now,
                        self.progress(),
                        self.stages(),
                    ),
            decreases queue@.len() - i,
        {
            let q: QueuedJobInfo = queue[i];
            keys.push(self.rank_of(view.now, q.job_id.0, q.absolute_deadline, q.release_time));
            i = i + 1;
        }
        proof {
            assert(keys@ =~= waiting_keys(queue@, view.now, self.progress(), self.stages()));
        }
        match select::find_least(&keys) {
            Some(at) => Some(queue[at]),
            None => None,
        }
    }
}

impl Default for CpEdfScheduler {
    fn default() -> (s: Self)
        ensures
            s.progress().remaining == Map::<u64, u64>::empty(),
            s.progress().elapsed == Map::<u64, u64>::empty(),
            s.stages() == Map::<u64, u64>::empty(),
    {
        CpEdfScheduler { tracker: ProgressTracker::new(), dag_stage: HashMap::new() }
    }
}

impl Scheduler for CpEdfScheduler {
    open spec fn alike(&self, other: &Self) -> bool {
        self.progress() == other.progress() && self.stages() == other.stages()
    }

    open spec fn wants(&self, policy: ReevaluationPolicy) -> bool {
        policy is Disabled
    }

    open spec fn answers_arrival(
        &self,
        job: &Job,
        task: &Task,
        view: Sight,
        actions: Seq<Action>,
        after: &Self,
    ) -> bool {
        match target(view, task) {
            Some(d) => {
                &&& after.progress() =~= self.progress().observed(view).assigned(
                    job.id.0,
                    remaining_work(job, task, type_of(view, task, d)),
                )
                &&& after.stages() =~= arrived_stages(
                    observed_stages(self.stages(), view),
                    job,
                )
                &&& actions =~= arrival(
                    job,
                    d,
                    view,
                    after.progress(),
                    after.stages(),
                )
            },
            None => {
                &&& after.progress() =~= self.progress().observed(view)
                &&& after.stages() =~= observed_stages(self.stages(), view)
                &&& actions =~= seq![Action::NoOp]
            },
        }
    }

    open spec fn answers_completion(
        &self,
        job: &Job,
        device_id: DeviceId,
        view: Sight,
        actions: Seq<Action>,
        after: &Self,
    ) -> bool {
        &&& after.progress() =~= self.progress().observed(view).forgotten(job.id.0)
        &&& after.stages() =~= observed_stages(self.stages(), view).remove(job.id.0)
        &&& actions =~= rank::dispatch_of(
            best_slack(
                view.waiting_at(device_id),
                view.now,
                after.progress(),
                after.stages(),
            ),
            device_id,
        )
    }

    open spec fn answers_point(
        &self,
        device_id: DeviceId,
        running_job: &Job,
        view: Sight,
        actions: Seq<Action>,
        after: &Self,
    ) -> bool {
        &&& after.progress() =~= self.progress().observed(view)
        &&& after.stages() =~= observed_stages(self.stages(), view)
        &&& actions =~= point(
            device_id,
            running_job,
            view,
            after.progress(),
            after.stages(),
        )
    }

    open spec fn answers_change(
        &self,
        new_level: CriticalityLevel,
        trigger_job: &Job,
        view: Sight,
        actions: Seq<Action>,
        after: &Self,
    ) -> bool {
        &&& after.progress() =~= self.progress().observed(view)
        &&& after.stages() =~= observed_stages(self.stages(), view)
        &&& actions =~= fixed_priority::criticality_change(new_level, view)
    }

    open spec fn answers_idle(
        &self,
        device_id: DeviceId,
        view: Sight,
        actions: Seq<Action>,
        after: &Self,
    ) -> bool {
        &&& after.progress() =~= self.progress().observed(view)
        &&& after.stages() =~= observed_stages(self.stages(), view)
        &&& actions =~= rank::dispatch_of(
            best_slack(
                view.waiting_at(device_id),
                view.now,
                after.progress(),
                after.stages(),
            ),
            device_id,
        )
    }

    open spec fn answers_reevaluation(
        &self,
        trigger: ReevaluationTrigger,
        view: Sight,
        actions: Seq<Action>,
        after: &Self,
    ) -> bool {
        actions =~= seq![Action::NoOp] && *after == *self
    }

    fn name(&self) -> (name: &str)
        ensures
            name@ == "CP-EDF"@,
    {
        "CP-EDF"
    }

    fn reevaluation_policy(&self) -> (policy: ReevaluationPolicy)
        ensures
            policy is Disabled,
    {
        ReevaluationPolicy::Disabled
    }

    fn on_job_arrival(&mut self, job: &Job, task: &Task, view: &SchedulerView<'_>) -> (actions: Vec<
        Action,
    >)
        ensures
            match target(view@, task) {
                Some(d) => {
                    &&& final(self).progress() == old(self).progress().observed(view@).assigned(
                        job.id.0,
                        remaining_work(job, task, type_of(view@, task, d)),
                    )
                    &&& final(self).stages() == arrived_stages(
                        observed_stages(old(self).stages(), view@),
                        job,
                    )
                    &&& actions@ == arrival(
                        job,
                        d,
                        view@,
                        final(self).progress(),
                        final(self).stages(),
                    )
                },
                None => {
                    &&& final(self).progress() == old(self).progress().observed(view@)
                    &&& final(self).stages() == observed_stages(old(self).stages(), view@)
                    &&& actions@ == seq![Action::NoOp]
                },
            },
    {
        self.observe_view(view);
        let ids: Vec<DeviceId> = view.compatible_devices(task);
        let d: DeviceId = match placement::pick_least_loaded(view, &ids, true) {
            Some(d) => d,
            None => {
                return vec![Action::NoOp];
            },
        };
        let target_type: DeviceType = find_type(view, task, d);
        proof {
            use_type_invariant(&*self);
        }
        let mut tracker = ProgressTracker::new();
        std::mem::swap(&mut tracker, &mut self.tracker);
        tracker.assign(job.id.0, Self::estimate_remaining_work_ns(job, task, target_type));
        self.tracker = tracker;
        let mut stages: HashMap<u64, u64> = HashMap::new();
        std::mem::swap(&mut stages, &mut self.dag_stage);
        match job.dag_provenance {
            Some(prov) => {
                stages.insert(job.id.0, prov.node.0 as u64);
            },
            None => {
                stages.remove(&job.id.0);
            },
        }
        self.dag_stage = stages;
        let running: Option<RunningJobInfo> = view.running_on_device(d);
        let preempts: bool = match running {
            Some(r) => {
                let incoming: Key = self.rank_of(
                    view.now,
                    job.id.0,
                    job.absolute_deadline,
                    job.release_time,
                );
                let current: Key = self.rank_of(
                    view.now,
                    r.job_id.0,
                    r.absolute_deadline,
                    r.release_time,
                );
                incoming.is_less(&current) && placement::preemption_allowed(view, d, false)
            },
            None => false,
        };
        rank::place_job(job, d, running, preempts)
    }

    fn on_job_complete(
        &mut self,
        job: &Job,
        device_id: DeviceId,
        view: &SchedulerView<'_>,
    ) -> (actions: Vec<Action>)
        ensures
            final(self).progress() == old(self).progress().observed(view@).forgotten(job.id.0),
            final(self).stages() == observed_stages(old(self).stages(), view@).remove(job.id.0),
            actions@ == rank::dispatch_of(
                best_slack(
                    view.waiting_at(device_id),
                    view.now,
                    final(self).progress(),
                    final(self).stages(),
                ),
                device_id,
            ),
    {
        self.observe_view(view);
        proof {
            use_type_invariant(&*self);
        }
        let mut tracker = ProgressTracker::new();
        std::mem::swap(&mut tracker, &mut self.tracker);
        tracker.forget(job.id.0);
        self.tracker = tracker;
        let mut stages: HashMap<u64, u64> = HashMap::new();
        std::mem::swap(&mut stages, &mut self.dag_stage);
        stages.remove(&job.id.0);
        self.dag_stage = stages;
        rank::dispatch_next(self.best_waiting_job(device_id, view), device_id)
    }

    fn on_preemption_point(
        &mut self,
        device_id: DeviceId,
        running_job: &Job,
        view: &SchedulerView<'_>,
    ) -> (actions: Vec<Action>)
        ensures
            final(self).progress() == old(self).progress().observed(view@),
            final(self).stages() == observed_stages(old(self).stages(), view@),
            actions@ == point(
                device_id,
                running_job,
                view@,
                final(self).progress(),
                final(self).stages(),
            ),
    {
        self.observe_view(view);
        match (view.running_on_device(device_id), self.best_waiting_job(device_id, view)) {
            (Some(r), Some(w)) => {
                let waiting: Key = self.rank_of(
                    view.now,
                    w.job_id.0,
                    w.absolute_deadline,
                    w.release_time,
                );
                let current: Key = self.rank_of(
                    view.now,
                    r.job_id.0,
                    r.absolute_deadline,
                    r.release_time,
                );
                if waiting.is_less(&current) && placement::preemption_allowed(
                    view,
                    device_id,
                    true,
                ) {
                    vec![Action::Preempt { victim: running_job.id, by: w.job_id, device_id }]
                } else {
                    vec![Action::NoOp]
                }
            },
            _ => vec![Action::NoOp],
        }
    }

    fn on_criticality_change(
        &mut self,
        new_level: CriticalityLevel,
        _trigger_job: &Job,
        view: &SchedulerView<'_>,
    ) -> (actions: Vec<Action>)
        ensures
            final(self).progress() == old(self).progress().observed(view@),
            final(self).stages() == observed_stages(old(self).stages(), view@),
            actions@ == fixed_priority::criticality_change(new_level, view@),
    {
        self.observe_view(view);
        fixed_priority::change_criticality(new_level, view)
    }

    fn on_device_idle(&mut self, device_id: DeviceId, view: &SchedulerView<'_>) -> (actions: Vec<
        Action,
    >)
        ensures
            final(self).progress() == old(self).progress().observed(view@),
            final(self).stages() == observed_stages(old(self).stages(), view@),
            actions@ == rank::dispatch_of(
                best_slack(
                    view.waiting_at(device_id),
                    view.now,
                    final(self).progress(),
                    final(self).stages(),
                ),
                device_id,
            ),
    {
        self.observe_view(view);
        rank::dispatch_next(self.best_waiting_job(device_id, view), device_id)
    }

    fn on_reevaluation(
        &mut self,
        _trigger: ReevaluationTrigger,
        _view: &SchedulerView<'_>,
    ) -> (actions: Vec<Action>)
        ensures
            actions@ == seq![Action::NoOp],
            *final(self) == *old(self),
    {
        vec![Action::NoOp]
    }
}

} // verus!

//! Scheduler interface: the view a scheduler sees and the actions it returns.

use crate::device::DeviceConfig;
use crate::ids::{DeviceId, JobId, TaskId};
use crate::job::Job;
use crate::task::{CriticalityLevel, DeviceType, Task};
use crate::time::Nanos;
use vstd::prelude::*;

verus! {

/// Immutable snapshot of observable simulation state.
///
/// The scheduler sees device states, queued jobs and elapsed time, but not how
/// long a job will execute.
#[derive(Debug)]
pub struct SchedulerView<'a> {
    /// Current simulation time.
    pub now: Nanos,
    /// All devices and their configurations.
    pub devices: &'a [DeviceConfig],
    /// Job currently running on each device.
    pub running_jobs: &'a [(DeviceId, Option<RunningJobInfo>)],
    /// Jobs in the ready queue of each device.
    pub ready_queues: &'a [(DeviceId, Vec<QueuedJobInfo>)],
    /// Current mixed-criticality level.
    pub criticality_level: CriticalityLevel,
}

/// Information about a running job visible to the scheduler.
#[derive(Debug, Clone, Copy, PartialEq, Eq, Structural)]
pub struct RunningJobInfo {
    pub job_id: JobId,
    pub task_id: TaskId,
    pub priority: u32,
    pub release_time: Nanos,
    pub absolute_deadline: Nanos,
    pub criticality: CriticalityLevel,
    /// How long this job has been executing (observable via timers).
    pub elapsed_ns: Nanos,
}

/// Information about a queued job visible to the scheduler.
#[derive(Debug, Clone, Copy, PartialEq, Eq, Structural)]
pub struct QueuedJobInfo {
    pub job_id: JobId,
    pub task_id: TaskId,
    pub priority: u32,
    pub release_time: Nanos,
    pub absolute_deadline: Nanos,
    pub criticality: CriticalityLevel,
}

/// Scheduling action returned by the scheduler.
#[derive(Debug, Clone, Copy, PartialEq, Eq, Structural)]
pub enum Action {
    /// Dispatch a job to a device for execution.
    Dispatch { job_id: JobId, device_id: DeviceId },
    /// Preempt the victim job, replacing it with another job.
    Preempt { victim: JobId, by: JobId, device_id: DeviceId },
    /// Migrate a job from one device to another.
    Migrate { job_id: JobId, from: DeviceId, to: DeviceId },
    /// Enqueue a job into a device's ready queue.
    Enqueue { job_id: JobId, device_id: DeviceId },
    /// Drop a job (mode switch: discard low-criticality tasks).
    DropJob { job_id: JobId },
    /// No action needed.
    NoOp,
}

/// Why a reevaluation callback is made.
#[derive(Debug, Clone, Copy, PartialEq, Eq, Structural)]
pub enum ReevaluationTrigger {
    /// The reevaluation interval elapsed.
    Periodic,
    /// A job arrived or completed.
    EventTriggered,
}

/// When a scheduler wants reevaluation callbacks.
#[derive(Debug, Clone, Copy, PartialEq, Eq, Structural)]
pub enum ReevaluationPolicy {
    /// Never.
    Disabled,
    /// Every `interval_ns`.
    Periodic { interval_ns: Nanos },
    /// After arrivals and completions, at most every `min_interval_ns`.
    EventTriggered { min_interval_ns: Nanos },
    /// Both of these.
    Hybrid { interval_ns: Nanos, min_interval_ns: Nanos },
}

/// The position of the first entry for device `d`.
pub open spec fn is_first_entry<T>(entries: Seq<(DeviceId, T)>, d: DeviceId, i: int) -> bool {
    &&& 0 <= i < entries.len()
    &&& entries[i].0 == d
    &&& forall|j: int| 0 <= j < i ==> (#[trigger] entries[j]).0 != d
}

/// What the first entry for device `d` holds.
pub open spec fn entry_for<T>(entries: Seq<(DeviceId, T)>, d: DeviceId) -> Option<T> {
    if exists|i: int| is_first_entry(entries, d, i) {
        Some(entries[choose|i: int| is_first_entry(entries, d, i)].1)
    } else {
        None
    }
}

/// The first entry is the one that a search finds.
proof fn lemma_entry_found<T>(entries: Seq<(DeviceId, T)>, d: DeviceId, i: int)
    requires
        is_first_entry(entries, d, i),
    ensures
        entry_for(entries, d) == Some(entries[i].1),
{
    let j = choose|j: int| is_first_entry(entries, d, j);
    assert(entries[i].0 == d && entries[j].0 == d);
}

/// The ids of the devices of one type, in the order of the list.
pub open spec fn ids_of_type(devices: Seq<DeviceConfig>, dt: DeviceType) -> Seq<DeviceId>
    decreases devices.len(),
{
    if devices.len() == 0 {
        Seq::empty()
    } else {
        let rest = ids_of_type(devices.drop_last(), dt);
        if devices.last().device_type == dt {
            rest.push(devices.last().id)
        } else {
            rest
        }
    }
}

/// The ids of the devices a task can run on: by affinity first, then in the
/// order of the list.
pub open spec fn compatible_ids(affinity: Seq<DeviceType>, devices: Seq<DeviceConfig>) -> Seq<
    DeviceId,
>
    decreases affinity.len(),
{
    if affinity.len() == 0 {
        Seq::empty()
    } else {
        compatible_ids(affinity.drop_last(), devices) + ids_of_type(devices, affinity.last())
    }
}

/// Drop actions for the low-criticality jobs of one queue.
pub open spec fn lo_drops_of(queue: Seq<QueuedJobInfo>) -> Seq<Action>
    decreases queue.len(),
{
    if queue.len() == 0 {
        Seq::empty()
    } else {
        let rest = lo_drops_of(queue.drop_last());
        if queue.last().criticality is Lo {
            rest.push(Action::DropJob { job_id: queue.last().job_id })
        } else {
            rest
        }
    }
}

/// Drop actions for the low-criticality jobs of all queues, in queue order.
pub open spec fn lo_drops(queues: Seq<(DeviceId, Seq<QueuedJobInfo>)>) -> Seq<Action>
    decreases queues.len(),
{
    if queues.len() == 0 {
        Seq::empty()
    } else {
        lo_drops(queues.drop_last()) + lo_drops_of(queues.last().1)
    }
}

/// A list of actions, or the one action that does nothing where it is empty.
pub open spec fn or_no_op(actions: Seq<Action>) -> Seq<Action> {
    if actions.len() == 0 {
        seq![Action::NoOp]
    } else {
        actions
    }
}

/// What a scheduler sees of a simulation.
#[verifier::ext_equal]
pub ghost struct Sight {
    /// The time.
    pub now: Nanos,
    /// The devices.
    pub devices: Seq<DeviceConfig>,
    /// The job running on each device.
    pub running_jobs: Seq<(DeviceId, Option<RunningJobInfo>)>,
    /// The jobs waiting for each device, most urgent first.
    pub ready_queues: Seq<(DeviceId, Seq<QueuedJobInfo>)>,
    /// The criticality level.
    pub criticality_level: CriticalityLevel,
}

impl Sight {
    /// The job running on a device.
    pub open spec fn running_at(self, d: DeviceId) -> Option<RunningJobInfo> {
        match entry_for(self.running_jobs, d) {
            Some(info) => info,
            None => None,
        }
    }

    /// The jobs waiting for a device, most urgent first.
    pub open spec fn waiting_at(self, d: DeviceId) -> Seq<QueuedJobInfo> {
        match entry_for(self.ready_queues, d) {
            Some(queue) => queue,
            None => Seq::empty(),
        }
    }

    /// Whether `i` is the place of the first device with an id.
    pub open spec fn is_device_index(self, d: DeviceId, i: int) -> bool {
        &&& 0 <= i < self.devices.len()
        &&& self.devices[i].id == d
        &&& forall|j: int| 0 <= j < i ==> (#[trigger] self.devices[j]).id != d
    }

    /// The configuration of a device.
    pub open spec fn device_at(self, d: DeviceId) -> Option<DeviceConfig> {
        if exists|i: int| self.is_device_index(d, i) {
            Some(self.devices[choose|i: int| self.is_device_index(d, i)])
        } else {
            None
        }
    }

    /// The devices a task can run on.
    pub open spec fn compatible_with(self, task: &Task) -> Seq<DeviceId> {
        compatible_ids(task.affinity@, self.devices)
    }
}

/// What is shown of the queues.
pub open spec fn queues_seen(queues: Seq<(DeviceId, Vec<QueuedJobInfo>)>) -> Seq<
    (DeviceId, Seq<QueuedJobInfo>),
> {
    Seq::new(queues.len(), |i: int| (queues[i].0, queues[i].1@))
}

impl<'a> View for SchedulerView<'a> {
    type V = Sight;

    open spec fn view(&self) -> Sight {
        Sight {
            now: self.now,
            devices: self.devices@,
            running_jobs: self.running_jobs@,
            ready_queues: queues_seen(self.ready_queues@),
            criticality_level: self.criticality_level,
        }
    }
}

impl<'a> SchedulerView<'a> {
    /// The job running on a device.
    pub open spec fn running_at(&self, d: DeviceId) -> Option<RunningJobInfo> {
        self@.running_at(d)
    }

    /// The jobs waiting for a device, most urgent first.
    pub open spec fn waiting_at(&self, d: DeviceId) -> Seq<QueuedJobInfo> {
        self@.waiting_at(d)
    }

    /// The configuration of a device.
    pub open spec fn device_at(&self, d: DeviceId) -> Option<DeviceConfig> {
        self@.device_at(d)
    }

    /// The devices a task can run on.
    pub open spec fn compatible_with(&self, task: &Task) -> Seq<DeviceId> {
        self@.compatible_with(task)
    }

    /// Looks up the job running on a device.
    pub fn running_on_device(&self, d: DeviceId) -> (info: Option<RunningJobInfo>)
        ensures
            info == self.running_at(d),
    {
        let mut i: usize = 0;
        while i < self.running_jobs.len()
            invariant
                i <= self.running_jobs@.len(),
                forall|j: int| 0 <= j < i ==> (#[trigger] self.running_jobs@[j]).0 != d,
            decreases self.running_jobs@.len() - i,
        {
            if self.running_jobs[i].0 == d {
                proof {
                    lemma_entry_found(self.running_jobs@, d, i as int);
                }
                return self.running_jobs[i].1;
            }
            i = i + 1;
        }
        None
    }

    /// Looks up the jobs waiting for a device.
    pub fn queue_for_device(&self, d: DeviceId) -> (queue: Option<&'a Vec<QueuedJobInfo>>)
        ensures
            match queue {
                Some(q) => q@ == self.waiting_at(d),
                None => self.waiting_at(d) == Seq::<QueuedJobInfo>::empty(),
            },
    {
        let mut i: usize = 0;
        while i < self.ready_queues.len()
            invariant
                i <= self.ready_queues@.len(),
                forall|j: int| 0 <= j < i ==> (#[trigger] self.ready_queues@[j]).0 != d,
            decreases self.ready_queues@.len() - i,
        {
            if self.ready_queues[i].0 == d {
                proof {
                    lemma_entry_found(self@.ready_queues, d, i as int);
                }
                return Some(&self.ready_queues[i].1);
            }
            i = i + 1;
        }
        None
    }

    /// Counts the jobs waiting for a device.
    pub fn queue_len(&self, d: DeviceId) -> (n: usize)
        ensures
            n == self.waiting_at(d).len(),
    {
        match self.queue_for_device(d) {
            Some(q) => q.len(),
            None => 0,
        }
    }

    /// Looks up the configuration of a device.
    pub fn device(&self, d: DeviceId) -> (device: Option<&'a DeviceConfig>)
        ensures
            match device {
                Some(c) => self.device_at(d) == Some(*c),
                None => self.device_at(d) is None,
            },
    {
        let mut i: usize = 0;
        while i < self.devices.len()
            invariant
                i <= self.devices@.len(),
                forall|j: int| 0 <= j < i ==> (#[trigger] self.devices@[j]).id != d,
            decreases self.devices@.len() - i,
        {
            if self.devices[i].id == d {
                proof {
                    assert(self@.is_device_index(d, i as int));
                    let j = choose|j: int| self@.is_device_index(d, j);
                    assert(self.devices@[i as int].id == d && self.devices@[j].id == d);
                }
                return Some(&self.devices[i]);
            }
            i = i + 1;
        }
        None
    }

    /// Lists the devices a task can run on.
    pub fn compatible_devices(&self, task: &Task) -> (ids: Vec<DeviceId>)
        ensures
            ids@ == self.compatible_with(task),
    {
        let mut ids: Vec<DeviceId> = Vec::new();
        let mut a: usize = 0;
        while a < task.affinity.len()
            invariant
                a <= task.affinity@.len(),
                ids@ == compatible_ids(task.affinity@.take(a as int), self.devices@),
            decreases task.affinity@.len() - a,
        {
            let dt: DeviceType = task.affinity[a];
            let ghost before = ids@;
            let mut i: usize = 0;
            while i < self.devices.len()
                invariant
                    i <= self.devices@.len(),
                    ids@ == before + ids_of_type(self.devices@.take(i as int), dt),
                decreases self.devices@.len() - i,
            {
                proof {
                    assert(self.devices@.take(i as int + 1).drop_last() =~= self.devices@.take(
                        i as int,
                    ));
                }
                if self.devices[i].device_type == dt {
                    ids.push(self.devices[i].id);
                }
                i = i + 1;
            }
            proof {
                assert(self.devices@.take(i as int) =~= self.devices@);
                assert(task.affinity@.take(a as int + 1).drop_last() =~= task.affinity@.take(
                    a as int,
                ));
            }
            a = a + 1;
        }
        proof {
            assert(task.affinity@.take(a as int) =~= task.affinity@);
        }
        ids
    }

    /// Lists drop actions for all waiting low-criticality jobs.
    pub fn drop_waiting_lo(&self) -> (actions: Vec<Action>)
        ensures
            actions@ == lo_drops(self@.ready_queues),
    {
        let mut actions: Vec<Action> = Vec::new();
        let mut d: usize = 0;
        while d < self.ready_queues.len()
            invariant
                d <= self.ready_queues@.len(),
                actions@ == lo_drops(self@.ready_queues.take(d as int)),
            decreases self.ready_queues@.len() - d,
        {
            let queue: &Vec<QueuedJobInfo> = &self.ready_queues[d].1;
            let ghost before = actions@;
            let mut i: usize = 0;
            while i < queue.len()
                invariant
                    i <= queue@.len(),
                    actions@ == before + lo_drops_of(queue@.take(i as int)),
                decreases queue@.len() - i,
            {
                proof {
                    assert(queue@.take(i as int + 1).drop_last() =~= queue@.take(i as int));
                }
                if queue[i].criticality == CriticalityLevel::Lo {
                    actions.push(Action::DropJob { job_id: queue[i].job_id });
                }
                i = i + 1;
            }
            proof {
                assert(queue@.take(i as int) =~= queue@);
                assert(self@.ready_queues.take(d as int + 1).drop_last()
                    =~= self@.ready_queues.take(d as int));
            }
            d = d + 1;
        }
        proof {
            assert(self@.ready_queues.take(d as int) =~= self@.ready_queues);
        }
        actions
    }
}

/// Replaces an empty list by the one action that does nothing.
pub fn actions_or_no_op(actions: Vec<Action>) -> (out: Vec<Action>)
    ensures
        out@ == or_no_op(actions@),
{
    if actions.len() == 0 {
        vec![Action::NoOp]
    } else {
        actions
    }
}

/// What a device does next when it has nothing to run: the head of its queue.
pub open spec fn head_dispatch(queue: Seq<QueuedJobInfo>, d: DeviceId) -> Seq<Action> {
    if queue.len() == 0 {
        seq![Action::NoOp]
    } else {
        seq![Action::Dispatch { job_id: queue[0].job_id, device_id: d }]
    }
}

/// Dispatches the head of a device's queue.
pub fn dispatch_head(d: DeviceId, view: &SchedulerView<'_>) -> (actions: Vec<Action>)
    ensures
        actions@ == head_dispatch(view.waiting_at(d), d),
{
    match view.queue_for_device(d) {
        Some(queue) => {
            if queue.len() == 0 {
                vec![Action::NoOp]
            } else {
                vec![Action::Dispatch { job_id: queue[0].job_id, device_id: d }]
            }
        },
        None => vec![Action::NoOp],
    }
}

/// The core scheduler interface.
///
/// Implementations must be deterministic given the same view. What they answer
/// is stated by `answers_..`, over the scheduler before and after the call; one
/// that states nothing may answer anything.
pub trait Scheduler: Sized {
    /// Whether two schedulers of this algorithm know the same.
    open spec fn alike(&self, other: &Self) -> bool {
        true
    }

    /// Whether reevaluation callbacks are wanted in a way.
    open spec fn wants(&self, policy: ReevaluationPolicy) -> bool {
        true
    }

    /// What is answered about a new job.
    open spec fn answers_arrival(
        &self,
        job: &Job,
        task: &Task,
        view: Sight,
        actions: Seq<Action>,
        after: &Self,
    ) -> bool {
        true
    }

    /// What is answered about a completed job.
    open spec fn answers_completion(
        &self,
        job: &Job,
        device_id: DeviceId,
        view: Sight,
        actions: Seq<Action>,
        after: &Self,
    ) -> bool {
        true
    }

    /// What is answered at a preemption point.
    open spec fn answers_point(
        &self,
        device_id: DeviceId,
        running_job: &Job,
        view: Sight,
        actions: Seq<Action>,
        after: &Self,
    ) -> bool {
        true
    }

    /// What is answered to a criticality change.
    open spec fn answers_change(
        &self,
        new_level: CriticalityLevel,
        trigger_job: &Job,
        view: Sight,
        actions: Seq<Action>,
        after: &Self,
    ) -> bool {
        true
    }

    /// What is answered about an idle device.
    open spec fn answers_idle(
        &self,
        device_id: DeviceId,
        view: Sight,
        actions: Seq<Action>,
        after: &Self,
    ) -> bool {
        true
    }

    /// What is answered at a reevaluation.
    open spec fn answers_reevaluation(
        &self,
        trigger: ReevaluationTrigger,
        view: Sight,
        actions: Seq<Action>,
        after: &Self,
    ) -> bool {
        true
    }

    /// Human-readable name of this scheduling algorithm.
    fn name(&self) -> &str;

    /// When this scheduler wants reevaluation callbacks.
    fn reevaluation_policy(&self) -> (policy: ReevaluationPolicy)
        ensures
            self.wants(policy),
    ;

    /// A new job has been released.
    fn on_job_arrival(&mut self, job: &Job, task: &Task, view: &SchedulerView<'_>) -> (actions: Vec<
        Action,
    >)
        ensures
            old(self).answers_arrival(job, task, view@, actions@, final(self)),
    ;

    /// A job completed execution on a device.
    fn on_job_complete(
        &mut self,
        job: &Job,
        device_id: DeviceId,
        view: &SchedulerView<'_>,
    ) -> (actions: Vec<Action>)
        ensures
            old(self).answers_completion(job, device_id, view@, actions@, final(self)),
    ;

    /// A preemption checkpoint was reached (GPU kernel boundary, DSP DMA end).
    fn on_preemption_point(
        &mut self,
        device_id: DeviceId,
        running_job: &Job,
        view: &SchedulerView<'_>,
    ) -> (actions: Vec<Action>)
        ensures
            old(self).answers_point(device_id, running_job, view@, actions@, final(self)),
    ;

    /// Mixed-criticality mode change.
    fn on_criticality_change(
        &mut self,
        new_level: CriticalityLevel,
        trigger_job: &Job,
        view: &SchedulerView<'_>,
    ) -> (actions: Vec<Action>)
        ensures
            old(self).answers_change(new_level, trigger_job, view@, actions@, final(self)),
    ;

    /// A device became idle other than by a completion.
    fn on_device_idle(&mut self, device_id: DeviceId, view: &SchedulerView<'_>) -> (actions: Vec<
        Action,
    >)
        ensures
            old(self).answers_idle(device_id, view@, actions@, final(self)),
    ;

    /// Reevaluation callback.
    fn on_reevaluation(
        &mut self,
        trigger: ReevaluationTrigger,
        view: &SchedulerView<'_>,
    ) -> (actions: Vec<Action>)
        ensures
            old(self).answers_reevaluation(trigger, view@, actions@, final(self)),
    ;
}

} // verus!

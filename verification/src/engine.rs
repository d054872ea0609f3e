//! The discrete-event simulation engine.
//!
//! The engine keeps the clock and the pending events, asks the scheduler at
//! every event and carries out what it answers. Each method performs one
//! transition of the state machine in `sim`.

use crate::arith;
use crate::arith::{Rate, Ratio};
use crate::dag::{DagInstanceId, DagProvenance, EdgeTransferId, SubTaskIdx};
use crate::dag_tracker;
use crate::dag_tracker::{DagRegistration, DagTracker};
use crate::device::{DeviceConfig, InterconnectConfig, SharedBusConfig};
use crate::device_manager;
use crate::device_manager::DeviceManager;
use crate::drive;
use crate::event::{Event, EventKind};
use crate::event_queue::EventQueue;
use crate::ids::{BusId, DeviceId, JobId, TaskId};
use crate::job::{Job, JobState};
use crate::metrics;
use crate::metrics::{BlockingBreakdown, DeviceUtilization, MetricsCollector};
use crate::order;
use crate::pace;
use crate::policy::ExecutionModel;
use crate::scheduler::{Action, ReevaluationPolicy, ReevaluationTrigger, Scheduler, SchedulerView};
use crate::search;
use crate::sim;
use crate::sim::{Sim, Tally};
use crate::task;
use crate::task::{CriticalityLevel, DagTask, DeviceType, Task};
use crate::time::Nanos;
use crate::transfer_manager;
use crate::transfer_manager::{JobTransferKind, ScheduledEvent, TransferManager, TransferStats};
use crate::virtual_device::{
    DispatchTiming, DispatchTimingInput, PreemptionCheckInput, PreemptionOutcome,
    VirtualDeviceModel,
};
use vstd::multiset::Multiset;
use vstd::prelude::*;

verus! {

/// Simulation engine configuration.
#[derive(Debug, Clone, Copy, PartialEq, Eq, Structural)]
pub struct SimConfig {
    /// Total simulation duration in nanoseconds.
    pub duration_ns: Nanos,
    /// Random seed for reproducibility.
    pub seed: u64,
}

/// The core simulation engine.
pub struct SimEngine {
    config: SimConfig,
    now: Nanos,
    event_queue: EventQueue,
    seq_counter: u64,
    jobs: Vec<Option<Job>>,
    tasks: Vec<Task>,
    criticality_level: CriticalityLevel,
    devices: DeviceManager,
    busy_ns: Vec<Nanos>,
    transfers: TransferManager,
    dags: DagTracker,
    metrics: MetricsCollector,
    events_processed: u64,
    preemption_count: u64,
    migration_count: u64,
    policy: ReevaluationPolicy,
    generation: u64,
    last_reevaluation: Option<Nanos>,
}

/// What a collector has counted.
pub open spec fn tally_of(m: &MetricsCollector) -> Tally {
    Tally {
        total: m.total_jobs,
        completed: m.completed_jobs,
        missed: m.deadline_misses,
        completions: m.completions@,
        misses: m.misses@,
    }
}

/// Whether a result is the outcome of a simulation in a state.
pub open spec fn reports(s: Sim, result: &SimResult) -> bool {
    let stats = s.transfers.stats;
    let c = s.tally.completions;
    &&& result.total_jobs == s.tally.total
    &&& result.completed_jobs == s.tally.completed
    &&& result.deadline_misses == s.tally.missed
    &&& result.miss_ratio == Ratio::of(s.tally.missed as u128, s.tally.total as u128)
    &&& result.schedulable == (s.tally.missed == 0)
    &&& result.makespan == or_zero(metrics::span(c))
    &&& if c.len() == 0 {
        result.avg_response_time == (Ratio { num: 0, den: 1 })
    } else {
        result.avg_response_time.num == metrics::total_response(c)
            && result.avg_response_time.den == c.len()
    }
    &&& result.events_processed == s.processed
    &&& result.per_device_utilization@ == metrics::utilizations(
        busy_list(s.devices, s.busy),
        metrics::span(c),
    )
    &&& result.transfer_overhead == stats.total_transfer_time_ns
    &&& result.blocking_breakdown == (BlockingBreakdown {
        transfer_ns: stats.total_transfer_time_ns,
        migration_ns: stats.migration_transfer_time_ns,
        bus_wait_ns: stats.bus_wait_time_ns,
    })
    &&& result.worst_response_time == or_zero(metrics::longest_response(c))
    &&& result.preemption_count == s.preemptions
    &&& result.migration_count == s.migrations
    &&& result.bus_contention_ratio == Ratio::of(
        stats.bus_transfer_contentions as u128,
        stats.bus_transfer_requests as u128,
    )
    &&& result.energy_picojoules == energy(s.devices, s.busy, s.devices.len() as int)
}

/// Whether a job of a state can become another one while everything that is
/// placed stays known and what is shown of the queues stays true.
pub open spec fn may_become(s: Sim, id: JobId, a: Job, b: Job) -> bool {
    ||| device_manager::same_face(a, b)
    ||| {
        &&& forall|i: int, k: int|
            0 <= i < s.queues.len() && 0 <= k < s.queues[i].len() ==> (
            #[trigger] s.queues[i][k]).job_id != id
        &&& b.task_id == a.task_id || b.task_id.0 < s.tasks.len() || !s.running.contains(Some(id))
    }
}

impl SimEngine {
    /// The state of the simulation.
    pub closed spec fn view(&self) -> Sim {
        Sim {
            duration: self.config.duration_ns,
            now: self.now,
            seq: self.seq_counter,
            events: self.event_queue@,
            jobs: self.jobs@,
            tasks: self.tasks@,
            level: self.criticality_level,
            devices: self.devices.device_list(),
            running: self.devices.running_ids(),
            queues: self.devices.queues(),
            busy: self.busy_ns@,
            links: self.transfers.links(),
            buses: self.transfers.bus_list(),
            transfers: self.transfers.state(),
            dags: self.dags.states(),
            tally: tally_of(&self.metrics),
            processed: self.events_processed,
            preemptions: self.preemption_count,
            migrations: self.migration_count,
            policy: self.policy,
            generation: self.generation,
            last_reevaluation: self.last_reevaluation,
        }
    }

    /// The clock has not passed any pending event, jobs that have a place are
    /// known, and what was last shown of unchanged queues is still what is
    /// there.
    pub closed spec fn wf(&self) -> bool {
        &&& self.devices.wf()
        &&& self.busy_ns@.len() == self.devices.device_list().len()
        &&& self.devices.device_list().len() <= u32::MAX
        &&& self.tasks@.len() <= u32::MAX
        &&& forall|e: Event| #[trigger] self.event_queue@.count(e) > 0 ==> e.time >= self.now
        &&& forall|i: int|
            0 <= i < self.devices.device_list().len() ==> ((
            #[trigger] self.devices.running_ids()[i]) matches Some(id) ==> self@.known(id))
        &&& forall|i: int, k: int|
            0 <= i < self.devices.device_list().len() && 0 <= k < self.devices.queues()[i].len()
                ==> self@.known((#[trigger] self.devices.queues()[i][k]).job_id)
        &&& forall|i: int|
            0 <= i < self.devices.device_list().len() && !self.devices.dirty()[i] ==> (
            #[trigger] self.devices.shown_queues()[i]).1@ == device_manager::queued_infos(
                self.jobs@,
                self.tasks@,
                self.devices.queues()[i],
            )
        &&& self.metrics.wf()
    }

    /// An engine at time zero, with idle devices and nothing pending.
    pub fn new(
        config: SimConfig,
        devices: Vec<DeviceConfig>,
        interconnects: Vec<InterconnectConfig>,
        buses: Vec<SharedBusConfig>,
    ) -> (engine: Self)
        requires
            devices@.len() <= u32::MAX,
        ensures
            engine.wf(),
            engine@ == sim::initial(config.duration_ns, devices@, interconnects@, buses@),
    {
        let n: usize = devices.len();
        let mut busy_ns: Vec<Nanos> = Vec::new();
        let mut i: usize = 0;
        while i < n
            invariant
                i <= n,
                busy_ns@ == Seq::new(i as nat, |k: int| 0u64),
            decreases n - i,
        {
            busy_ns.push(0);
            proof {
                assert(busy_ns@ =~= Seq::new((i + 1) as nat, |k: int| 0u64));
            }
            i = i + 1;
        }
        let ghost first = sim::initial(config.duration_ns, devices@, interconnects@, buses@);
        let engine = SimEngine {
            config,
            now: 0,
            event_queue: EventQueue::new(),
            seq_counter: 0,
            jobs: Vec::new(),
            tasks: Vec::new(),
            criticality_level: CriticalityLevel::Lo,
            devices: DeviceManager::new(devices),
            busy_ns,
            transfers: TransferManager::new(interconnects, buses),
            dags: DagTracker::new(),
            metrics: MetricsCollector::new(),
            events_processed: 0,
            preemption_count: 0,
            migration_count: 0,
            policy: ReevaluationPolicy::Disabled,
            generation: 0,
            last_reevaluation: None,
        };
        proof {
            assert forall|k: int| 0 <= k < n implies engine.devices.queues()[k]
                == Seq::<device_manager::QueueEntry>::empty() by {
                assert(engine.devices.queues()[k] =~= Seq::empty());
            }
            assert(engine.devices.running_ids() =~= first.running);
            assert(engine.devices.queues() =~= first.queues);
            assert(engine@ =~= first);
        }
        engine
    }

    /// Schedules a new event.
    pub fn schedule_event(&mut self, time: Nanos, kind: EventKind)
        requires
            old(self).wf(),
            time >= old(self)@.now,
        ensures
            final(self).wf(),
            final(self)@ == old(self)@.scheduled(time, kind),
    {
        if self.seq_counter == u64::MAX {
            return;
        }
        let event = Event { time, seq: self.seq_counter, kind };
        let ghost before = self@;
        self.seq_counter = self.seq_counter + 1;
        self.event_queue.push(event);
        proof {
            assert forall|e: Event| #[trigger] self.event_queue@.count(e) > 0 implies e.time
                >= self.now by {
                if e != event {
                    assert(before.events.count(e) > 0);
                }
            }
            assert(self@ =~= before.scheduled(time, kind));
        }
    }

    /// Takes the earliest pending event.
    pub fn pop_event(&mut self) -> (next: Option<Event>)
        requires
            old(self).wf(),
        ensures
            final(self).wf(),
            match next {
                Some(e) => old(self)@.is_next(e) && final(self)@ == (Sim {
                    events: old(self)@.events.remove(e),
                    ..old(self)@
                }),
                None => old(self)@.events.len() == 0 && final(self)@ == old(self)@,
            },
    {
        let ghost before = self@;
        let next: Option<Event> = self.event_queue.pop();
        proof {
            if let Some(e) = next {
                assert forall|x: Event| #[trigger] self.event_queue@.count(x) > 0 implies x.time
                    >= self.now by {
                    assert(before.events.count(x) > 0);
                }
                assert(self@ =~= Sim { events: before.events.remove(e), ..before });
            }
        }
        next
    }

    /// Allocates a new job.
    pub fn create_job(
        &mut self,
        task_id: TaskId,
        release_time: Nanos,
        absolute_deadline: Nanos,
        actual_exec_ns: Option<Nanos>,
        priority: u32,
    ) -> (id: JobId)
        requires
            old(self).wf(),
        ensures
            final(self).wf(),
            id == JobId(old(self)@.jobs.len() as u64),
            final(self)@ == old(self)@.with_new_job(
                Job::fresh(
                    id,
                    task_id,
                    release_time,
                    absolute_deadline,
                    actual_exec_ns,
                    priority,
                ),
            ),
    {
        let id = JobId(self.jobs.len() as u64);
        self.add_job(
            Job::new(id, task_id, release_time, absolute_deadline, actual_exec_ns, priority),
        );
        id
    }

    /// Adds a job.
    fn add_job(&mut self, job: Job)
        requires
            old(self).wf(),
        ensures
            final(self).wf(),
            final(self)@ == old(self)@.with_new_job(job),
    {
        let ghost before = self@;
        self.jobs.push(Some(job));
        proof {
            assert(self@ =~= before.with_new_job(job));
            self.lemma_places_kept(old(self));
        }
    }

    /// Looks up a job by id.
    pub fn get_job(&self, id: JobId) -> (job: Option<&Job>)
        ensures
            match job {
                Some(j) => self@.job(id) == Some(*j),
                None => self@.job(id) is None,
            },
    {
        if id.0 < self.jobs.len() as u64 {
            match &self.jobs[id.0 as usize] {
                Some(job) => Some(job),
                None => None,
            }
        } else {
            None
        }
    }

    /// Copies a job.
    fn job(&self, id: JobId) -> (job: Option<Job>)
        ensures
            job == self@.job(id),
    {
        match self.get_job(id) {
            Some(job) => Some(*job),
            None => None,
        }
    }

    /// While places stay the same, jobs keep their looks and tasks stay, what
    /// was shown of the queues holds on.
    proof fn lemma_waits_nowhere(&self, before: &SimEngine, id: JobId, a: Job, b: Job)
        requires
            before.wf(),
            before@.job(id) == Some(a),
            may_become(before@, id, a, b),
            !device_manager::same_face(a, b),
            *self == (SimEngine { jobs: self.jobs, ..*before }),
            self.jobs@ == before.jobs@.update(id.0 as int, Some(b)),
        ensures
            self.wf(),
    {
        assert forall|i: int, k: int|
            0 <= i < self.devices.device_list().len() && 0 <= k
                < self.devices.queues()[i].len() implies self@.known(
            (#[trigger] self.devices.queues()[i][k]).job_id,
        ) by {
            let other = before.devices.queues()[i][k].job_id;
            assert(before@.queues[i][k].job_id != id);
            assert(before@.known(other));
        }
        assert forall|i: int| 0 <= i < self.devices.device_list().len() implies ((
        #[trigger] self.devices.running_ids()[i]) matches Some(other) ==> self@.known(other)) by {
            assert(before.devices.running_ids()[i] == before@.running[i]);
        }
        assert forall|i: int|
            0 <= i < self.devices.device_list().len() && !self.devices.dirty()[i] implies (
        #[trigger] self.devices.shown_queues()[i]).1@ == device_manager::queued_infos(
            self.jobs@,
            self.tasks@,
            self.devices.queues()[i],
        ) by {
            let queue = self.devices.queues()[i];
            assert forall|k: int| 0 <= k < queue.len() implies ({
                let other = (#[trigger] queue[k]).job_id;
                match (
                    device_manager::job_at(before.jobs@, other),
                    device_manager::job_at(self.jobs@, other),
                ) {
                    (Some(x), Some(y)) => device_manager::same_face(x, y)
                        && before.tasks@[x.task_id.0 as int].criticality
                        == self.tasks@[y.task_id.0 as int].criticality,
                    (None, None) => true,
                    _ => false,
                }
            }) by {
                assert(before@.queues[i][k].job_id != id);
            }
            device_manager::lemma_same_faces(
                queue,
                before.jobs@,
                before.tasks@,
                self.jobs@,
                self.tasks@,
            );
        }
    }

    proof fn lemma_places_kept(&self, before: &SimEngine)
        requires
            before.wf(),
            self.devices == before.devices,
            self.tasks@.len() >= before.tasks@.len(),
            forall|i: int|
                0 <= i < before.tasks@.len() ==> (#[trigger] self.tasks@[i]).criticality
                    == before.tasks@[i].criticality,
            self.jobs@.len() >= before.jobs@.len(),
            forall|i: int|
                0 <= i < before.jobs@.len() ==> ((#[trigger] before.jobs@[i]) matches Some(a) ==> (
                self.jobs@[i] matches Some(b) && device_manager::same_face(a, b))),
        ensures
            forall|i: int|
                0 <= i < self.devices.device_list().len() ==> ((
                #[trigger] self.devices.running_ids()[i]) matches Some(id) ==> self@.known(id)),
            forall|i: int, k: int|
                0 <= i < self.devices.device_list().len() && 0 <= k
                    < self.devices.queues()[i].len() ==> self@.known(
                    (#[trigger] self.devices.queues()[i][k]).job_id,
                ),
            forall|i: int|
                0 <= i < self.devices.device_list().len() && !self.devices.dirty()[i] ==> (
                #[trigger] self.devices.shown_queues()[i]).1@ == device_manager::queued_infos(
                    self.jobs@,
                    self.tasks@,
                    self.devices.queues()[i],
                ),
    {
        assert forall|i: int, k: int|
            0 <= i < self.devices.device_list().len() && 0 <= k
                < self.devices.queues()[i].len() implies self@.known(
            (#[trigger] self.devices.queues()[i][k]).job_id,
        ) by {
            let id = self.devices.queues()[i][k].job_id;
            assert(before@.known(id));
            assert(before.jobs@[id.0 as int] is Some);
        }
        assert forall|i: int|
            0 <= i < self.devices.device_list().len() && !self.devices.dirty()[i] implies (
        #[trigger] self.devices.shown_queues()[i]).1@ == device_manager::queued_infos(
            self.jobs@,
            self.tasks@,
            self.devices.queues()[i],
        ) by {
            let queue = self.devices.queues()[i];
            assert forall|k: int| 0 <= k < queue.len() implies ({
                let id = (#[trigger] queue[k]).job_id;
                match (
                    device_manager::job_at(before.jobs@, id),
                    device_manager::job_at(self.jobs@, id),
                ) {
                    (Some(a), Some(b)) => device_manager::same_face(a, b)
                        && before.tasks@[a.task_id.0 as int].criticality
                        == self.tasks@[b.task_id.0 as int].criticality,
                    (None, None) => true,
                    _ => false,
                }
            }) by {
                let id = before.devices.queues()[i][k].job_id;
                assert(before@.known(id));
                assert(before.jobs@[id.0 as int] is Some);
            }
            device_manager::lemma_same_faces(
                queue,
                before.jobs@,
                before.tasks@,
                self.jobs@,
                self.tasks@,
            );
            assert(before.devices.shown_queues()[i].1@ == device_manager::queued_infos(
                before.jobs@,
                before.tasks@,
                queue,
            ));
        }
        assert forall|i: int| 0 <= i < self.devices.device_list().len() implies ((
        #[trigger] self.devices.running_ids()[i]) matches Some(id) ==> self@.known(id)) by {
            if let Some(id) = before.devices.running_ids()[i] {
                assert(before@.known(id));
                assert(before.jobs@[id.0 as int] is Some);
            }
        }
    }

    /// Replaces a job by one that looks the same.
    fn put_job(&mut self, id: JobId, job: Job)
        requires
            old(self).wf(),
            old(self)@.job(id) matches Some(o) && device_manager::same_face(o, job),
        ensures
            final(self).wf(),
            final(self)@ == old(self)@.with_job(id, job),
    {
        let ghost before = self@;
        if id.0 < self.jobs.len() as u64 {
            self.jobs.set(id.0 as usize, Some(job));
        }
        proof {
            assert(self@ =~= before.with_job(id, job));
            self.lemma_places_kept(old(self));
        }
    }

    /// Takes a job out of all queues.
    fn unqueue(&mut self, id: JobId)
        requires
            old(self).wf(),
        ensures
            final(self).wf(),
            final(self)@ == old(self)@.unqueued(id),
    {
        let ghost before = self@;
        self.devices.remove_job_from_all_queues(id);
        proof {
            assert(self.devices.queues() =~= before.unqueued(id).queues);
            assert(self@ =~= before.unqueued(id));
            assert forall|i: int, k: int|
                0 <= i < self.devices.device_list().len() && 0 <= k
                    < self.devices.queues()[i].len() implies self@.known(
                (#[trigger] self.devices.queues()[i][k]).job_id,
            ) by {
                let queue = old(self).devices.queues()[i];
                device_manager::lemma_without(queue, id);
                let entry = self.devices.queues()[i][k];
                assert(queue.contains(entry));
                let o = choose|o: int| 0 <= o < queue.len() && queue[o] == entry;
                assert(before.known(old(self).devices.queues()[i][o].job_id));
            }
            assert forall|i: int|
                0 <= i < self.devices.device_list().len() && !self.devices.dirty()[i] implies (
            #[trigger] self.devices.shown_queues()[i]).1@ == device_manager::queued_infos(
                self.jobs@,
                self.tasks@,
                self.devices.queues()[i],
            ) by {
                assert(self.devices.queues()[i] == old(self).devices.queues()[i]);
                assert(old(self).devices.shown_queues()[i].1@ == device_manager::queued_infos(
                    self.jobs@,
                    self.tasks@,
                    old(self).devices.queues()[i],
                ));
            }
        }
    }

    /// Puts a job into the queue of a device.
    fn push_queue(&mut self, id: JobId, d: DeviceId, priority: u32)
        requires
            old(self).wf(),
            old(self)@.known(id),
            old(self)@.has_device(d),
            priority == old(self)@.job(id)->0.effective_priority,
        ensures
            final(self).wf(),
            final(self)@ == old(self)@.queued(id, d),
    {
        let ghost before = self@;
        let ghost entry = device_manager::QueueEntry { priority, job_id: id };
        self.devices.enqueue(d, id, priority);
        proof {
            assert(self@ =~= before.queued(id, d));
            assert forall|i: int, k: int|
                0 <= i < self.devices.device_list().len() && 0 <= k
                    < self.devices.queues()[i].len() implies self@.known(
                (#[trigger] self.devices.queues()[i][k]).job_id,
            ) by {
                let queue = old(self).devices.queues()[i];
                let here = self.devices.queues()[i][k];
                if i == d.0 {
                    device_manager::lemma_enqueued(queue, entry);
                    if here != entry {
                        assert(queue.contains(here));
                        let o = choose|o: int| 0 <= o < queue.len() && queue[o] == here;
                        assert(before.known(old(self).devices.queues()[i][o].job_id));
                    }
                } else {
                    assert(before.known(old(self).devices.queues()[i][k].job_id));
                }
            }
            assert forall|i: int|
                0 <= i < self.devices.device_list().len() && !self.devices.dirty()[i] implies (
            #[trigger] self.devices.shown_queues()[i]).1@ == device_manager::queued_infos(
                self.jobs@,
                self.tasks@,
                self.devices.queues()[i],
            ) by {
                assert(old(self).devices.shown_queues()[i].1@ == device_manager::queued_infos(
                    self.jobs@,
                    self.tasks@,
                    old(self).devices.queues()[i],
                ));
            }
        }
    }

    /// Makes a job the one running on a device.
    fn occupy(&mut self, d: DeviceId, id: JobId)
        requires
            old(self).wf(),
            old(self)@.known(id),
            old(self)@.has_device(d),
        ensures
            final(self).wf(),
            final(self)@ == (Sim {
                running: old(self)@.running.update(d.0 as int, Some(id)),
                ..old(self)@
            }),
    {
        let ghost before = self@;
        self.devices.set_running(d, id);
        proof {
            assert(self@ =~= Sim { running: before.running.update(d.0 as int, Some(id)), ..before });
            assert forall|i: int| 0 <= i < self.devices.device_list().len() implies ((
            #[trigger] self.devices.running_ids()[i]) matches Some(x) ==> self@.known(x)) by {
                if i != d.0 {
                    assert(old(self).devices.running_ids()[i] == self.devices.running_ids()[i]);
                }
            }
            self.lemma_queues_kept(old(self));
        }
    }

    /// Queues that stay the same stay shown.
    proof fn lemma_queues_kept(&self, before: &SimEngine)
        requires
            before.wf(),
            self.devices.same_but_running(&before.devices),
            self.tasks@ == before.tasks@,
            self.jobs@ == before.jobs@,
        ensures
            forall|i: int, k: int|
                0 <= i < self.devices.device_list().len() && 0 <= k
                    < self.devices.queues()[i].len() ==> self@.known(
                    (#[trigger] self.devices.queues()[i][k]).job_id,
                ),
            forall|i: int|
                0 <= i < self.devices.device_list().len() && !self.devices.dirty()[i] ==> (
                #[trigger] self.devices.shown_queues()[i]).1@ == device_manager::queued_infos(
                    self.jobs@,
                    self.tasks@,
                    self.devices.queues()[i],
                ),
    {
        assert forall|i: int, k: int|
            0 <= i < self.devices.device_list().len() && 0 <= k
                < self.devices.queues()[i].len() implies self@.known(
            (#[trigger] self.devices.queues()[i][k]).job_id,
        ) by {
            assert(before@.known(before.devices.queues()[i][k].job_id));
        }
        assert forall|i: int|
            0 <= i < self.devices.device_list().len() && !self.devices.dirty()[i] implies (
        #[trigger] self.devices.shown_queues()[i]).1@ == device_manager::queued_infos(
            self.jobs@,
            self.tasks@,
            self.devices.queues()[i],
        ) by {
            assert(before.devices.shown_queues()[i].1@ == device_manager::queued_infos(
                before.jobs@,
                before.tasks@,
                before.devices.queues()[i],
            ));
        }
    }

    /// Makes a device idle.
    fn vacate(&mut self, d: DeviceId)
        requires
            old(self).wf(),
            old(self)@.has_device(d),
        ensures
            final(self).wf(),
            final(self)@ == (Sim {
                running: old(self)@.running.update(d.0 as int, None),
                ..old(self)@
            }),
    {
        let ghost before = self@;
        self.devices.clear_running(d);
        proof {
            assert(self@ =~= Sim { running: before.running.update(d.0 as int, None), ..before });
            assert forall|i: int| 0 <= i < self.devices.device_list().len() implies ((
            #[trigger] self.devices.running_ids()[i]) matches Some(x) ==> self@.known(x)) by {
                if i != d.0 {
                    assert(old(self).devices.running_ids()[i] == self.devices.running_ids()[i]);
                }
            }
            self.lemma_queues_kept(old(self));
        }
    }
}

/// Moves a job to a new state.
fn moved(job: Job, state: JobState) -> (after: Job)
    ensures
        after == sim::moved(job, state),
{
    let mut after: Job = job;
    if after.version < u64::MAX {
        after.transition(state);
    } else {
        after.state = state;
    }
    after
}

/// The rate at which a device executes.
fn speed(device: &DeviceConfig) -> (rate: Rate)
    ensures
        rate == sim::speed_of(*device),
        rate.num > 0,
{
    device.speed_factor.at_least_a_thousandth()
}

/// Tells a state in which a job can be given a place.
fn waits(state: JobState) -> (yes: bool)
    ensures
        yes == sim::is_waiting(state),
{
    match state {
        JobState::Released | JobState::Ready | JobState::Suspended => true,
        _ => false,
    }
}

impl SimEngine {
    /// Tells whether a device exists.
    fn has_device(&self, d: DeviceId) -> (yes: bool)
        ensures
            yes == self@.has_device(d),
    {
        (d.0 as usize) < self.devices.devices().len()
    }

    /// Looks up a job whose task is known.
    fn known_job(&self, id: JobId) -> (job: Option<Job>)
        ensures
            match job {
                Some(j) => self@.known(id) && self@.job(id) == Some(j),
                None => !self@.known(id),
            },
    {
        match self.job(id) {
            Some(job) => {
                if (job.task_id.0 as usize) < self.tasks.len() {
                    Some(job)
                } else {
                    None
                }
            },
            None => None,
        }
    }

    /// Tells whether the execution time of a job on a device is known.
    fn is_executable(&self, id: JobId, job: &Job, d: DeviceId) -> (yes: bool)
        requires
            self.wf(),
            self@.known(id),
            self@.job(id) == Some(*job),
            self@.has_device(d),
        ensures
            yes == self@.executable(id, d),
    {
        if job.actual_exec_ns.is_some() {
            return true;
        }
        let dt: DeviceType = self.devices.device(d).device_type;
        task::find_model(&self.tasks[job.task_id.0 as usize].exec_times, dt).is_some()
    }

    /// Tells whether a job waits for a place and a device can run it.
    fn is_placeable(&self, id: JobId, d: DeviceId) -> (yes: bool)
        requires
            self.wf(),
        ensures
            yes == self@.placeable(id, d),
    {
        match self.known_job(id) {
            Some(job) => self.has_device(d) && waits(job.state) && self.is_executable(
                id,
                &job,
                d,
            ),
            None => false,
        }
    }

    /// The execution time of a job on a device.
    fn exec_time(&self, id: JobId, job: &Job, d: DeviceId) -> (ns: Nanos)
        requires
            self.wf(),
            self@.known(id),
            self@.job(id) == Some(*job),
            self@.has_device(d),
            self@.executable(id, d),
        ensures
            ns == self@.exec_time(id, d),
    {
        match job.actual_exec_ns {
            Some(ns) => ns,
            None => {
                let dt: DeviceType = self.devices.device(d).device_type;
                let task: &Task = &self.tasks[job.task_id.0 as usize];
                match task::find_model(&task.exec_times, dt) {
                    Some(i) => task.exec_times[i].1.resolve_wcet(self.criticality_level),
                    None => 0,
                }
            },
        }
    }

    /// Finds the device that executes a job.
    fn device_of(&self, id: JobId) -> (device: Option<DeviceId>)
        requires
            self.wf(),
        ensures
            device == self@.device_of(id),
    {
        match self.job(id) {
            Some(job) => match job.assigned_device {
                Some(d) => {
                    if !self.has_device(d) {
                        return None;
                    }
                    match self.devices.running_job(d) {
                        Some(running) => if running == id {
                            Some(d)
                        } else {
                            None
                        },
                        None => None,
                    }
                },
                None => None,
            },
            None => None,
        }
    }

    /// Schedules events.
    fn schedule_all(&mut self, list: &Vec<ScheduledEvent>)
        requires
            old(self).wf(),
            transfer_manager::not_past(list@, old(self)@.now),
        ensures
            final(self).wf(),
            final(self)@ == old(self)@.scheduled_all(list@),
    {
        let ghost before = self@;
        let mut i: usize = 0;
        while i < list.len()
            invariant
                i <= list@.len(),
                self.wf(),
                self@.now == before.now,
                transfer_manager::not_past(list@, before.now),
                self@ == before.scheduled_all(list@.take(i as int)),
            decreases list@.len() - i,
        {
            proof {
                assert(list@.take(i as int + 1).drop_last() =~= list@.take(i as int));
            }
            let event: ScheduledEvent = list[i];
            self.schedule_event(event.time, event.kind);
            i = i + 1;
        }
        proof {
            assert(list@.take(i as int) =~= list@);
        }
    }

    /// Takes a job off the device it runs on and records its progress.
    fn pause_job(&mut self, id: JobId, d: DeviceId)
        requires
            old(self).wf(),
            old(self)@.job(id) is Some,
            old(self)@.has_device(d),
        ensures
            final(self).wf(),
            final(self)@ == old(self)@.paused(id, d),
    {
        let ghost before = self@;
        if let Some(job) = self.job(id) {
            let elapsed: Nanos = match job.exec_start_time {
                Some(start) => self.now.saturating_sub(start),
                None => 0,
            };
            let rate: Rate = speed(self.devices.device(d));
            let done: Nanos = arith::done_in(elapsed, rate);
            let stopped = Job {
                executed_ns: job.executed_ns.saturating_add(done),
                exec_start_time: None,
                ..job
            };
            self.put_job(id, stopped);
            self.vacate(d);
            self.add_busy(d, elapsed);
            assert(self@ =~= before.paused(id, d));
        }
    }

    /// Adds to the time a device has executed jobs.
    fn add_busy(&mut self, d: DeviceId, elapsed: Nanos)
        requires
            old(self).wf(),
            old(self)@.has_device(d),
        ensures
            final(self).wf(),
            final(self)@ == (Sim {
                busy: old(self)@.busy.update(
                    d.0 as int,
                    arith::sat_add(old(self)@.busy[d.0 as int], elapsed),
                ),
                ..old(self)@
            }),
    {
        let i: usize = d.0 as usize;
        let total: Nanos = self.busy_ns[i].saturating_add(elapsed);
        self.busy_ns.set(i, total);
        proof {
            self.lemma_places_kept(old(self));
        }
    }

    /// Starts a job on an idle device, after a penalty.
    fn start_job(&mut self, id: JobId, d: DeviceId, penalty: Nanos)
        requires
            old(self).wf(),
            old(self)@.known(id),
            old(self)@.has_device(d),
            old(self)@.executable(id, d),
        ensures
            final(self).wf(),
            final(self)@ == old(self)@.started(id, d, penalty),
    {
        let job: Job = match self.job(id) {
            Some(job) => job,
            None => {
                return;
            },
        };
        let device: &DeviceConfig = self.devices.device(d);
        let model: VirtualDeviceModel = VirtualDeviceModel::from_device(device);
        let context_switch_ns: Nanos = device.context_switch_ns;
        let exec: Nanos = self.exec_time(id, &job, d);
        let wall: Nanos = arith::time_for(
            exec.saturating_sub(job.executed_ns),
            speed(device),
        );
        let begin: Nanos = self.now.saturating_add(penalty);
        let timing: DispatchTiming = model.evaluate_dispatch_timing(
            DispatchTimingInput {
                now_ns: begin,
                context_switch_ns,
                remaining_exec_wall_ns: wall,
            },
        );
        let delay: Nanos = timing.additional_dispatch_delay_ns;
        let placed = Job {
            assigned_device: Some(d),
            exec_start_time: Some(
                begin.saturating_add(delay).saturating_add(context_switch_ns),
            ),
            actual_exec_ns: Some(exec),
            ..moved(job, JobState::Running)
        };
        self.unqueue(id);
        self.put_job(id, placed);
        self.occupy(d, id);
        self.schedule_event(
            timing.completion_time_ns.saturating_add(delay),
            EventKind::JobComplete {
                job_id: id,
                expected_version: placed.version,
                device_id: d,
            },
        );
        if let Some(interval) = model.preemption_point_interval_ns() {
            if interval > 0 {
                if let Some(point) = timing.next_preemption_point_ns {
                    self.schedule_event(
                        point.saturating_add(delay),
                        EventKind::PreemptionPoint {
                            device_id: d,
                            job_id: id,
                            expected_version: placed.version,
                        },
                    );
                }
            }
        }
    }

    /// Lets a job wait in the queue of a device.
    fn enqueue_job(&mut self, id: JobId, d: DeviceId)
        requires
            old(self).wf(),
            old(self)@.known(id),
            old(self)@.has_device(d),
        ensures
            final(self).wf(),
            final(self)@ == old(self)@.enqueued(id, d),
    {
        if let Some(job) = self.job(id) {
            let state: JobState = match job.state {
                JobState::Suspended => JobState::Suspended,
                _ => JobState::Ready,
            };
            self.unqueue(id);
            self.put_job(id, moved(job, state));
            self.push_queue(id, d, job.effective_priority);
        }
    }

    /// Tells where the input data of a job is.
    fn origin(&self, id: JobId, job: &Job) -> (device: Option<DeviceId>)
        requires
            self.wf(),
            self@.job(id) == Some(*job),
        ensures
            device == self@.origin(id),
    {
        match job.assigned_device {
            Some(d) => Some(d),
            None => {
                let list: &[DeviceConfig] = self.devices.devices();
                let mut i: usize = 0;
                while i < list.len()
                    invariant
                        i <= list@.len(),
                        list@.len() <= u32::MAX,
                        list@ == self@.devices,
                        self@.job(id) == Some(*job),
                        job.assigned_device is None,
                        forall|k: int| 0 <= k < i ==> !sim::is_cpu()(#[trigger] list@[k]),
                    decreases list@.len() - i,
                {
                    if list[i].device_type == DeviceType::Cpu {
                        proof {
                            search::lemma_found(list@, sim::is_cpu(), i as int);
                        }
                        return Some(DeviceId(i as u32));
                    }
                    i = i + 1;
                }
                proof {
                    search::lemma_not_found(list@, sim::is_cpu());
                }
                None
            },
        }
    }

    /// Finds where the input data of a job has to be moved from before a
    /// device can run it.
    fn transfer_source(&self, id: JobId, d: DeviceId) -> (from: Option<DeviceId>)
        requires
            self.wf(),
            self@.known(id),
        ensures
            match from {
                Some(o) => self@.needs_transfer(id, d) && self@.origin(id) == Some(o),
                None => !self@.needs_transfer(id, d),
            },
    {
        match self.job(id) {
            Some(job) => {
                if self.tasks[job.task_id.0 as usize].data_size == 0 {
                    return None;
                }
                match self.origin(id, &job) {
                    Some(o) => if o == d {
                        None
                    } else {
                        Some(o)
                    },
                    None => None,
                }
            },
            None => None,
        }
    }

    /// Sends the data of a job to a device.
    fn send_job(
        &mut self,
        id: JobId,
        from: DeviceId,
        to: DeviceId,
        kind: JobTransferKind,
        state: JobState,
    )
        requires
            old(self).wf(),
            old(self)@.known(id),
        ensures
            final(self).wf(),
            final(self)@ == old(self)@.sent(id, from, to, kind, state),
    {
        if let Some(job) = self.job(id) {
            let leaving = Job { assigned_device: Some(to), ..moved(job, state) };
            let data_size: u64 = self.tasks[job.task_id.0 as usize].data_size;
            self.unqueue(id);
            self.put_job(id, leaving);
            let list: Vec<ScheduledEvent> = self.request_transfer(
                id,
                from,
                to,
                data_size,
                kind,
                leaving.effective_priority,
                leaving.version,
            );
            self.schedule_all(&list);
        }
    }

    /// Asks for the transfer of a job's data.
    fn request_transfer(
        &mut self,
        id: JobId,
        from: DeviceId,
        to: DeviceId,
        data_size: u64,
        kind: JobTransferKind,
        priority: u32,
        version: u64,
    ) -> (list: Vec<ScheduledEvent>)
        requires
            old(self).wf(),
        ensures
            final(self).wf(),
            transfer_manager::not_past(list@, old(self)@.now),
            ({
                let (transfers, events) = old(self)@.transfers.requested(
                    old(self)@.links,
                    (transfer_manager::TransferRequest {
                        id: transfer_manager::TransferId::Job(id),
                        owner_job_id: id,
                        from,
                        to,
                        data_size,
                        reason: transfer_manager::TransferReason::Job(kind),
                        priority,
                        expected_version: version,
                    }),
                    old(self)@.now,
                );
                &&& final(self)@ == (Sim { transfers, ..old(self)@ })
                &&& list@ == events
            }),
    {
        let now: Nanos = self.now;
        proof {
            transfer_manager::law_requests_complete_later(
                self.transfers.state(),
                self.transfers.links(),
                transfer_manager::TransferRequest {
                    id: transfer_manager::TransferId::Job(id),
                    owner_job_id: id,
                    from,
                    to,
                    data_size,
                    reason: transfer_manager::TransferReason::Job(kind),
                    priority,
                    expected_version: version,
                },
                now,
            );
        }
        let list: Vec<ScheduledEvent> = self.transfers.initiate_transfer(
            id,
            from,
            to,
            data_size,
            kind,
            priority,
            now,
            version,
        );
        proof {
            self.lemma_places_kept(old(self));
        }
        list
    }

    /// Dispatches a job to a device.
    fn dispatch_job(&mut self, id: JobId, d: DeviceId)
        requires
            old(self).wf(),
        ensures
            final(self).wf(),
            final(self)@ == old(self)@.dispatched(id, d),
    {
        if !self.is_placeable(id, d) {
            return;
        }
        match self.transfer_source(id, d) {
            Some(from) => {
                self.send_job(
                    id,
                    from,
                    d,
                    JobTransferKind::Dispatch,
                    JobState::Transferring,
                );
            },
            None => {
                if self.devices.running_job(d).is_none() {
                    self.start_job(id, d, 0);
                } else {
                    self.enqueue_job(id, d);
                }
            },
        }
    }

    /// Puts a running job back into the queue of its device.
    fn suspend_job(&mut self, id: JobId, d: DeviceId)
        requires
            old(self).wf(),
            old(self)@.known(id),
            old(self)@.has_device(d),
        ensures
            final(self).wf(),
            final(self)@ == old(self)@.suspended(id, d),
    {
        let ghost before = self@;
        self.pause_job(id, d);
        if let Some(job) = self.job(id) {
            self.put_job(id, moved(job, JobState::Suspended));
            self.push_queue(id, d, job.effective_priority);
            self.count_preemption();
            assert(self@ =~= before.suspended(id, d));
        }
    }

    /// Counts a preemption.
    fn count_preemption(&mut self)
        requires
            old(self).wf(),
        ensures
            final(self).wf(),
            final(self)@ == (Sim {
                preemptions: arith::sat_add(old(self)@.preemptions, 1),
                ..old(self)@
            }),
    {
        self.preemption_count = self.preemption_count.saturating_add(1);
        proof {
            self.lemma_places_kept(old(self));
        }
    }

    /// Counts a migration.
    fn count_migration(&mut self)
        requires
            old(self).wf(),
        ensures
            final(self).wf(),
            final(self)@ == (Sim {
                migrations: arith::sat_add(old(self)@.migrations, 1),
                ..old(self)@
            }),
    {
        self.migration_count = self.migration_count.saturating_add(1);
        proof {
            self.lemma_places_kept(old(self));
        }
    }

    /// Lets a job take over from a running one, as far as the device grants it.
    fn preempt_job(&mut self, victim: JobId, by: JobId, d: DeviceId, at_point: bool)
        requires
            old(self).wf(),
        ensures
            final(self).wf(),
            final(self)@ == old(self)@.preempted(victim, by, d, at_point),
    {
        if !self.is_placeable(by, d) {
            return;
        }
        match self.device_of(victim) {
            Some(device) => {
                if device != d {
                    return;
                }
            },
            None => {
                return;
            },
        }
        match self.transfer_source(by, d) {
            Some(from) => {
                self.send_job(
                    by,
                    from,
                    d,
                    JobTransferKind::Dispatch,
                    JobState::Transferring,
                );
            },
            None => {
                let model: VirtualDeviceModel = VirtualDeviceModel::from_device(
                    self.devices.device(d),
                );
                let at_preemption_point: bool = match model.preemption_point_interval_ns() {
                    Some(interval) => at_point || interval == 0,
                    None => at_point,
                };
                let outcome: PreemptionOutcome = model.preemption_outcome(
                    PreemptionCheckInput { at_preemption_point },
                );
                assert(self.devices.running_ids()[d.0 as int] == Some(victim));
                if outcome.allows_preemption_now() {
                    self.suspend_job(victim, d);
                    self.start_job(by, d, outcome.penalty_ns);
                } else {
                    self.enqueue_job(by, d);
                }
            },
        }
    }

    /// Moves a job from one device to another.
    fn migrate_job(&mut self, id: JobId, from: DeviceId, to: DeviceId)
        requires
            old(self).wf(),
        ensures
            final(self).wf(),
            final(self)@ == old(self)@.migrated(id, from, to),
    {
        let job: Job = match self.known_job(id) {
            Some(job) => job,
            None => {
                return;
            },
        };
        if !self.has_device(from) || !self.has_device(to) || from == to || !self.is_executable(
            id,
            &job,
            to,
        ) {
            return;
        }
        let runs_there: bool = match self.device_of(id) {
            Some(d) => d == from,
            None => false,
        };
        if runs_there {
            self.pause_job(id, from);
            self.send_job(id, from, to, JobTransferKind::Migration, JobState::Migrating);
            self.count_migration();
        } else if self.devices.is_queued(from, id) {
            self.send_job(id, from, to, JobTransferKind::Migration, JobState::Migrating);
            self.count_migration();
        }
    }

    /// Ends a job before it completes.
    fn end_job(&mut self, id: JobId, state: JobState)
        requires
            old(self).wf(),
            old(self)@.job(id) is Some,
        ensures
            final(self).wf(),
            final(self)@ == old(self)@.ended(id, state),
    {
        if let Some(d) = self.device_of(id) {
            self.pause_job(id, d);
        }
        if let Some(job) = self.job(id) {
            self.unqueue(id);
            self.put_job(id, moved(job, state));
            let list: Vec<ScheduledEvent> = self.cancel_transfers(id);
            self.schedule_all(&list);
        }
    }

    /// Cancels the transfers of a job.
    fn cancel_transfers(&mut self, id: JobId) -> (list: Vec<ScheduledEvent>)
        requires
            old(self).wf(),
        ensures
            final(self).wf(),
            transfer_manager::not_past(list@, old(self)@.now),
            ({
                let (transfers, events) = old(self)@.transfers.cancelled(
                    old(self)@.links,
                    old(self)@.buses,
                    id,
                    old(self)@.now,
                );
                &&& final(self)@ == (Sim { transfers, ..old(self)@ })
                &&& list@ == events
            }),
    {
        let now: Nanos = self.now;
        let list: Vec<ScheduledEvent> = self.transfers.cancel_job(id, now);
        proof {
            self.lemma_places_kept(old(self));
        }
        list
    }

    /// Drops a job, unless it has come to an end.
    fn drop_job(&mut self, id: JobId)
        requires
            old(self).wf(),
        ensures
            final(self).wf(),
            final(self)@ == old(self)@.dropped(id),
    {
        if let Some(job) = self.job(id) {
            if !job.state.is_terminal() {
                self.end_job(id, JobState::Dropped);
            }
        }
    }

    /// Carries out one action of the scheduler.
    fn apply_action(&mut self, action: Action, at: Option<DeviceId>)
        requires
            old(self).wf(),
        ensures
            final(self).wf(),
            final(self)@ == old(self)@.applied(action, at),
    {
        proof {
            reveal(Sim::applied);
        }
        match action {
            Action::Dispatch { job_id, device_id } => {
                self.dispatch_job(job_id, device_id);
            },
            Action::Preempt { victim, by, device_id } => {
                let at_point: bool = match at {
                    Some(d) => d == device_id,
                    None => false,
                };
                self.preempt_job(victim, by, device_id, at_point);
            },
            Action::Migrate { job_id, from, to } => {
                self.migrate_job(job_id, from, to);
            },
            Action::Enqueue { job_id, device_id } => {
                if self.is_placeable(job_id, device_id) {
                    self.enqueue_job(job_id, device_id);
                }
            },
            Action::DropJob { job_id } => {
                self.drop_job(job_id);
            },
            Action::NoOp => {},
        }
    }

    /// Carries out the actions of the scheduler one after the other, at a
    /// preemption point of a device or elsewhere. An action that does not fit
    /// the state is passed over.
    pub fn apply_actions(&mut self, actions: &Vec<Action>, at: Option<DeviceId>)
        requires
            old(self).wf(),
        ensures
            final(self).wf(),
            final(self)@ == old(self)@.applied_all(actions@, at),
    {
        let ghost before = self@;
        let mut i: usize = 0;
        while i < actions.len()
            invariant
                i <= actions@.len(),
                self.wf(),
                self@ == before.applied_all(actions@.take(i as int), at),
            decreases actions@.len() - i,
        {
            proof {
                assert(actions@.take(i as int + 1).drop_last() =~= actions@.take(i as int));
            }
            self.apply_action(actions[i], at);
            i = i + 1;
        }
        proof {
            assert(actions@.take(i as int) =~= actions@);
        }
    }
}

impl SimEngine {
    /// Registers tasks. A task's id is its place in the order of registration.
    pub fn register_tasks(&mut self, tasks: Vec<Task>)
        requires
            old(self).wf(),
            old(self)@.tasks.len() + tasks@.len() <= u32::MAX,
        ensures
            final(self).wf(),
            final(self)@ == (Sim { tasks: old(self)@.tasks + tasks@, ..old(self)@ }),
    {
        let mut tasks: Vec<Task> = tasks;
        let ghost more = tasks@;
        self.tasks.append(&mut tasks);
        proof {
            assert(self@ =~= Sim { tasks: old(self)@.tasks + more, ..old(self)@ });
            self.lemma_places_kept(old(self));
        }
    }

    /// Releases the next job of a task at a time.
    fn release_job(&mut self, task_id: TaskId, time: Nanos, provenance: Option<DagProvenance>)
        requires
            old(self).wf(),
            task_id.0 < old(self)@.tasks.len(),
            time >= old(self)@.now,
        ensures
            final(self).wf(),
            final(self)@ == old(self)@.released(task_id, time, provenance),
    {
        let id = JobId(self.jobs.len() as u64);
        let task: &Task = &self.tasks[task_id.0 as usize];
        let deadline: Nanos = time.saturating_add(task.deadline);
        let fresh: Job = Job::new(id, task_id, time, deadline, None, task.priority);
        self.add_job(Job { dag_provenance: provenance, ..fresh });
        self.schedule_event(time, EventKind::TaskArrival { task_id, job_id: id });
        self.schedule_event(
            deadline.saturating_add(1),
            EventKind::DeadlineCheck { job_id: id, expected_version: 0 },
        );
    }

    /// Releases the first job of every periodic or sporadic task, in the order
    /// of registration.
    pub fn schedule_initial_arrivals(&mut self)
        requires
            old(self).wf(),
        ensures
            final(self).wf(),
            final(self)@ == old(self)@.first_released(old(self)@.tasks.len() as int),
    {
        let ghost before = self@;
        let now: Nanos = self.now;
        let n: usize = self.tasks.len();
        let mut i: usize = 0;
        while i < n
            invariant
                i <= n,
                n == before.tasks.len(),
                n <= u32::MAX,
                self.wf(),
                now == before.now,
                self@.now == before.now,
                self@.tasks == before.tasks,
                self@ == before.first_released(i as int),
            decreases n - i,
        {
            if self.tasks[i].period().is_some() {
                self.release_job(TaskId(i as u32), now, None);
            }
            i = i + 1;
        }
    }

    /// Releases the next job of a task that arrives periodically.
    fn release_next(&mut self, task_id: TaskId)
        requires
            old(self).wf(),
            task_id.0 < old(self)@.tasks.len(),
        ensures
            final(self).wf(),
            final(self)@ == old(self)@.next_released(task_id),
    {
        if let Some(period) = self.tasks[task_id.0 as usize].period() {
            let time: Nanos = self.now.saturating_add(period);
            if period > 0 && time < self.config.duration_ns {
                self.release_job(task_id, time, None);
            }
        }
    }

    /// Releases the jobs of DAG nodes.
    fn release_nodes(&mut self, tasks: &Vec<TaskId>, instance: DagInstanceId)
        requires
            old(self).wf(),
        ensures
            final(self).wf(),
            final(self)@ == old(self)@.nodes_released(tasks@, instance),
    {
        let ghost before = self@;
        let now: Nanos = self.now;
        let mut i: usize = 0;
        while i < tasks.len()
            invariant
                i <= tasks@.len(),
                self.wf(),
                now == before.now,
                self@.now == before.now,
                self@.tasks == before.tasks,
                self@.dags == before.dags,
                self@ == before.nodes_released(tasks@.take(i as int), instance),
            decreases tasks@.len() - i,
        {
            proof {
                assert(tasks@.take(i as int + 1).drop_last() =~= tasks@.take(i as int));
            }
            let task_id: TaskId = tasks[i];
            if (task_id.0 as usize) < self.tasks.len() {
                let provenance: Option<DagProvenance> = self.dags.dag_provenance(
                    instance,
                    task_id,
                );
                self.release_job(task_id, now, provenance);
            }
            i = i + 1;
        }
        proof {
            assert(tasks@.take(i as int) =~= tasks@);
        }
    }

    /// Registers DAGs. Nodes become tasks, and the jobs of nodes that depend
    /// on nothing arrive now.
    pub fn register_dags(&mut self, dags: Vec<DagTask>)
        requires
            old(self).wf(),
            old(self)@.tasks.len() + sim::node_count(dags@) <= u32::MAX,
        ensures
            final(self).wf(),
            sim::registers(old(self)@, dags@, final(self)@),
    {
        let ghost before = self@;
        let ghost all = dags@;
        let mut rest: Vec<DagTask> = dags;
        let ghost mut done: int = 0;
        proof {
            assert(all.take(0) =~= Seq::empty());
            assert(all.skip(0) =~= all);
        }
        while rest.len() > 0
            invariant
                self.wf(),
                0 <= done,
                done + rest@.len() == all.len(),
                rest@ == all.skip(done),
                before.tasks.len() + sim::node_count(all) <= u32::MAX,
                self@.tasks.len() == before.tasks.len() + sim::node_count(all.take(done)),
                sim::registers(before, all.take(done), self@),
            decreases rest@.len(),
        {
            let dag: DagTask = rest.remove(0);
            proof {
                assert(dag == all[done]);
                assert(rest@ =~= all.skip(done + 1));
                assert(all.take(done + 1).drop_last() =~= all.take(done));
                sim::lemma_node_count(all, done + 1);
            }
            let ghost mid = self@;
            self.register_dag(dag);
            proof {
                assert(sim::registers_one(mid, all.take(done + 1).last(), self@));
                done = done + 1;
            }
        }
        proof {
            assert(all.take(done) =~= all);
        }
    }

    /// Registers one DAG.
    fn register_dag(&mut self, dag: DagTask)
        requires
            old(self).wf(),
            old(self)@.tasks.len() + dag.nodes@.len() <= u32::MAX,
        ensures
            final(self).wf(),
            final(self)@.tasks.len() == old(self)@.tasks.len() + dag.nodes@.len(),
            sim::registers_one(old(self)@, dag, final(self)@),
    {
        let ghost before = self@;
        let registration: DagRegistration = self.dags.register_dag(dag, &mut self.tasks);
        proof {
            assert forall|i: int| 0 <= i < before.tasks.len() implies (
            #[trigger] self.tasks@[i]).criticality == before.tasks[i].criticality by {
                assert(self.tasks@.take(before.tasks.len() as int)[i] == self.tasks@[i]);
            }
            self.lemma_places_kept(old(self));
            assert(self@ =~= Sim {
                tasks: self@.tasks,
                dags: before.dags.push(dag_tracker::registered(dag, before.tasks.len())),
                ..before
            });
        }
        let ghost mid = self@;
        self.release_nodes(&registration.ready_task_ids, registration.instance_id);
        proof {
            sim::lemma_released_keeps(
                mid,
                registration.ready_task_ids@,
                registration.instance_id,
            );
        }
    }
}

impl SimEngine {
    /// Releases what depends on a DAG edge whose data has arrived.
    fn satisfy_edge(&mut self, edge: EdgeTransferId)
        requires
            old(self).wf(),
        ensures
            final(self).wf(),
            final(self)@ == old(self)@.edge_satisfied(edge),
    {
        let ghost before = self@;
        let tasks: Vec<TaskId> = self.dags.mark_edge_satisfied(
            edge.dag_instance_id,
            edge.from_node,
            edge.to_node,
        );
        proof {
            self.lemma_places_kept(old(self));
        }
        if edge.dag_instance_id.0 < self.dags.instance_count() {
            self.release_nodes(&tasks, edge.dag_instance_id);
        } else {
            assert(self@ =~= before);
        }
    }

    /// Finds where the data for a successor goes.
    fn successor_device(&self, task_id: TaskId, d: DeviceId) -> (device: DeviceId)
        requires
            self.wf(),
            task_id.0 < self@.tasks.len(),
            self@.has_device(d),
        ensures
            device == self@.successor_device(task_id, d),
    {
        let types: &Vec<DeviceType> = &self.tasks[task_id.0 as usize].affinity;
        if lists_type(types, self.devices.device(d).device_type) {
            return d;
        }
        let list: &[DeviceConfig] = self.devices.devices();
        let mut i: usize = 0;
        while i < list.len()
            invariant
                i <= list@.len(),
                list@.len() <= u32::MAX,
                list@ == self@.devices,
                types@ == self@.tasks[task_id.0 as int].affinity@,
                !types@.contains(self@.devices[d.0 as int].device_type),
                forall|k: int| 0 <= k < i ==> !sim::is_of(types@)(#[trigger] list@[k]),
            decreases list@.len() - i,
        {
            if lists_type(types, list[i].device_type) {
                proof {
                    search::lemma_found(list@, sim::is_of(types@), i as int);
                }
                return DeviceId(i as u32);
            }
            i = i + 1;
        }
        proof {
            search::lemma_not_found(list@, sim::is_of(types@));
        }
        d
    }

    /// Hands the data of a node that a job ran to a successor.
    fn hand_on(
        &mut self,
        id: JobId,
        d: DeviceId,
        provenance: DagProvenance,
        to_node: SubTaskIdx,
        bytes: u64,
    )
        requires
            old(self).wf(),
            old(self)@.job(id) is Some,
            old(self)@.has_device(d),
            provenance.dag_instance_id.0 < old(self)@.dags.len(),
        ensures
            final(self).wf(),
            final(self)@ == old(self)@.handed_on(id, d, provenance, to_node, bytes),
    {
        let edge = EdgeTransferId {
            dag_instance_id: provenance.dag_instance_id,
            from_node: provenance.node,
            to_node,
        };
        let target: DeviceId = match self.dags.proxy_task_id(provenance.dag_instance_id, to_node) {
            Some(task_id) => if (task_id.0 as usize) < self.tasks.len() {
                self.successor_device(task_id, d)
            } else {
                d
            },
            None => d,
        };
        if target == d {
            self.satisfy_edge(edge);
        } else if let Some(job) = self.job(id) {
            let list: Vec<ScheduledEvent> = self.request_edge_transfer(
                edge,
                id,
                d,
                target,
                bytes,
                job.effective_priority,
                job.version,
            );
            self.schedule_all(&list);
        }
    }

    /// Asks for the transfer of the data on a DAG edge.
    fn request_edge_transfer(
        &mut self,
        edge: EdgeTransferId,
        owner: JobId,
        from: DeviceId,
        to: DeviceId,
        data_size: u64,
        priority: u32,
        version: u64,
    ) -> (list: Vec<ScheduledEvent>)
        requires
            old(self).wf(),
        ensures
            final(self).wf(),
            transfer_manager::not_past(list@, old(self)@.now),
            ({
                let (transfers, events) = old(self)@.transfers.requested(
                    old(self)@.links,
                    (transfer_manager::TransferRequest {
                        id: transfer_manager::TransferId::Edge(edge),
                        owner_job_id: owner,
                        from,
                        to,
                        data_size,
                        reason: transfer_manager::TransferReason::Edge,
                        priority,
                        expected_version: version,
                    }),
                    old(self)@.now,
                );
                &&& final(self)@ == (Sim { transfers, ..old(self)@ })
                &&& list@ == events
            }),
    {
        let now: Nanos = self.now;
        let list: Vec<ScheduledEvent> = self.transfers.initiate_edge_transfer(
            edge,
            owner,
            from,
            to,
            data_size,
            priority,
            now,
            version,
        );
        proof {
            self.lemma_places_kept(old(self));
        }
        list
    }

    /// Hands the data of a completed DAG node to all its successors.
    fn hand_on_all(&mut self, id: JobId, d: DeviceId)
        requires
            old(self).wf(),
            old(self)@.job(id) is Some,
            old(self)@.has_device(d),
        ensures
            final(self).wf(),
            final(self)@ == old(self)@.succeeded(id, d),
            final(self)@.job(id) is Some,
    {
        let ghost before = self@;
        let provenance: DagProvenance = match self.job(id) {
            Some(job) => match job.dag_provenance {
                Some(p) => p,
                None => {
                    return;
                },
            },
            None => {
                return;
            },
        };
        if provenance.dag_instance_id.0 >= self.dags.instance_count() {
            return;
        }
        let list: Vec<(SubTaskIdx, u64)> = self.dags.outgoing_edges(
            provenance.dag_instance_id,
            provenance.node,
        );
        let mut i: usize = 0;
        while i < list.len()
            invariant
                i <= list@.len(),
                self.wf(),
                before.job(id) is Some,
                before.has_device(d),
                provenance.dag_instance_id.0 < before.dags.len(),
                self@ == before.all_handed_on(id, d, provenance, list@.take(i as int)),
            decreases list@.len() - i,
        {
            proof {
                assert(list@.take(i as int + 1).drop_last() =~= list@.take(i as int));
                sim::lemma_handed_on_all(before, id, d, provenance, list@.take(i as int));
            }
            let (to_node, bytes): (SubTaskIdx, u64) = list[i];
            self.hand_on(id, d, provenance, to_node, bytes);
            i = i + 1;
        }
        proof {
            assert(list@.take(i as int) =~= list@);
            sim::lemma_handed_on_all(before, id, d, provenance, list@);
        }
    }

    /// Counts a job that arrives and releases its task's next one.
    fn begin_arrival(&mut self, id: JobId, task_id: TaskId)
        requires
            old(self).wf(),
            old(self)@.known(id),
            task_id == old(self)@.job(id)->0.task_id,
        ensures
            final(self).wf(),
            final(self)@ == old(self)@.arriving(id),
    {
        let ghost before = self@;
        self.metrics.record_job_release();
        proof {
            self.lemma_places_kept(old(self));
            assert(self@ =~= Sim {
                tally: Tally { total: arith::sat_add(before.tally.total, 1), ..before.tally },
                ..before
            });
        }
        self.release_next(task_id);
    }

    /// Completes the job that runs on a device.
    fn complete_job(&mut self, id: JobId, d: DeviceId)
        requires
            old(self).wf(),
            old(self)@.device_of(id) == Some(d),
        ensures
            final(self).wf(),
            final(self)@ == old(self)@.completing(id, d),
            final(self)@.job(id) is Some,
    {
        let now: Nanos = self.now;
        self.pause_job(id, d);
        if let Some(job) = self.job(id) {
            let executed_ns: Nanos = match job.actual_exec_ns {
                Some(ns) => ns,
                None => job.executed_ns,
            };
            let done = Job { executed_ns, ..moved(job, JobState::Completed) };
            self.put_job(id, done);
            self.record_completion(id, job.task_id, job.release_time, now);
            self.hand_on_all(id, d);
        }
    }

    /// Records a completion.
    fn record_completion(
        &mut self,
        job_id: JobId,
        task_id: TaskId,
        release_time: Nanos,
        time: Nanos,
    )
        requires
            old(self).wf(),
        ensures
            final(self).wf(),
            final(self)@ == (Sim {
                tally: Tally {
                    completed: arith::sat_add(old(self)@.tally.completed, 1),
                    completions: old(self)@.tally.completions.push(
                        metrics::CompletionRecord {
                            job_id,
                            task_id,
                            release_time,
                            completion_time: time,
                        },
                    ),
                    ..old(self)@.tally
                },
                ..old(self)@
            }),
    {
        self.metrics.record_completion(job_id, task_id, release_time, time);
        proof {
            self.lemma_places_kept(old(self));
        }
    }

    /// Records a missed deadline.
    fn record_miss(&mut self, job_id: JobId, task_id: TaskId, time: Nanos)
        requires
            old(self).wf(),
        ensures
            final(self).wf(),
            final(self)@ == (Sim {
                tally: Tally {
                    missed: arith::sat_add(old(self)@.tally.missed, 1),
                    misses: old(self)@.tally.misses.push(
                        metrics::MissRecord { job_id, task_id, miss_time: time },
                    ),
                    ..old(self)@.tally
                },
                ..old(self)@
            }),
    {
        self.metrics.record_deadline_miss(job_id, task_id, time);
        proof {
            self.lemma_places_kept(old(self));
        }
    }

    /// Starts a job whose data has arrived, or lets it wait.
    fn land_job(&mut self, id: JobId, d: DeviceId)
        requires
            old(self).wf(),
        ensures
            final(self).wf(),
            final(self)@ == old(self)@.landed(id, d),
    {
        let job: Job = match self.known_job(id) {
            Some(job) => job,
            None => {
                return;
            },
        };
        let under_way: bool = match job.state {
            JobState::Transferring | JobState::Migrating => true,
            _ => false,
        };
        let expected: bool = match job.assigned_device {
            Some(device) => device == d,
            None => false,
        };
        if !self.has_device(d) || !under_way || !expected || !self.is_executable(id, &job, d) {
            return;
        }
        if self.devices.running_job(d).is_none() {
            self.start_job(id, d, 0);
        } else {
            self.enqueue_job(id, d);
        }
    }

    /// Ends the transfer of a job's data.
    fn finish_transfer(&mut self, id: JobId, d: DeviceId)
        requires
            old(self).wf(),
        ensures
            final(self).wf(),
            final(self)@ == old(self)@.transferred(id, d),
    {
        let now: Nanos = self.now;
        let list: Vec<ScheduledEvent> = self.transfers.on_transfer_complete(id, now);
        proof {
            self.lemma_places_kept(old(self));
        }
        self.schedule_all(&list);
        self.land_job(id, d);
    }

    /// Ends the transfer of the data on a DAG edge.
    fn finish_edge_transfer(&mut self, edge: EdgeTransferId)
        requires
            old(self).wf(),
        ensures
            final(self).wf(),
            final(self)@ == old(self)@.edge_transferred(edge),
    {
        let now: Nanos = self.now;
        let list: Vec<ScheduledEvent> = self.transfers.on_edge_transfer_complete(edge, now);
        proof {
            self.lemma_places_kept(old(self));
        }
        self.schedule_all(&list);
        self.satisfy_edge(edge);
    }

    /// Serves an idle bus.
    fn arbitrate(&mut self, bus: BusId)
        requires
            old(self).wf(),
        ensures
            final(self).wf(),
            final(self)@ == old(self)@.arbitrated(bus),
    {
        let ghost before = self@;
        let now: Nanos = self.now;
        let list: Vec<ScheduledEvent> = self.transfers.on_bus_arbitration(bus, now);
        proof {
            self.lemma_places_kept(old(self));
            if before.transfers.busy(bus) {
                assert(self@ =~= before);
            }
        }
        self.schedule_all(&list);
    }

    /// Records a missed deadline and ends the job.
    fn miss_deadline(&mut self, id: JobId, task_id: TaskId)
        requires
            old(self).wf(),
            old(self)@.job(id) matches Some(job) && job.task_id == task_id,
        ensures
            final(self).wf(),
            final(self)@ == old(self)@.missing(id),
    {
        let now: Nanos = self.now;
        self.record_miss(id, task_id, now);
        self.end_job(id, JobState::DeadlineMissed);
    }

    /// Drops all active low-criticality jobs.
    fn drop_active_lo(&mut self)
        requires
            old(self).wf(),
        ensures
            final(self).wf(),
            final(self)@ == old(self)@.lo_dropped(old(self)@.jobs.len() as int),
    {
        let ghost before = self@;
        let n: usize = self.jobs.len();
        let mut i: usize = 0;
        while i < n
            invariant
                i <= n,
                self.wf(),
                self@ == before.lo_dropped(i as int),
            decreases n - i,
        {
            let id = JobId(i as u64);
            if let Some(job) = self.known_job(id) {
                if job.state.is_active() && self.tasks[job.task_id.0 as usize].criticality
                    == CriticalityLevel::Lo {
                    self.drop_job(id);
                }
            }
            i = i + 1;
        }
    }

    /// Schedules an event-triggered reevaluation where one is due.
    fn trigger_reevaluation(&mut self)
        requires
            old(self).wf(),
        ensures
            final(self).wf(),
            final(self)@ == old(self)@.reevaluation_due(),
    {
        let min: Nanos = match self.policy {
            ReevaluationPolicy::EventTriggered { min_interval_ns } => min_interval_ns,
            ReevaluationPolicy::Hybrid { min_interval_ns, .. } => min_interval_ns,
            _ => {
                return;
            },
        };
        let rested: bool = match self.last_reevaluation {
            Some(last) => self.now >= last.saturating_add(min),
            None => true,
        };
        if rested {
            let now: Nanos = self.now;
            self.last_reevaluation = Some(now);
            proof {
                self.lemma_places_kept(old(self));
            }
            self.schedule_event(
                now,
                EventKind::SchedulerReevaluation {
                    generation: self.generation,
                    trigger: ReevaluationTrigger::EventTriggered,
                },
            );
        }
    }

    /// Schedules the next periodic reevaluation.
    fn schedule_reevaluation(&mut self)
        requires
            old(self).wf(),
        ensures
            final(self).wf(),
            final(self)@ == old(self)@.reevaluation_pending(),
    {
        let interval: Nanos = match self.policy {
            ReevaluationPolicy::Periodic { interval_ns } => interval_ns,
            ReevaluationPolicy::Hybrid { interval_ns, .. } => interval_ns,
            _ => {
                return;
            },
        };
        if interval > 0 {
            self.schedule_event(
                self.now.saturating_add(interval),
                EventKind::SchedulerReevaluation {
                    generation: self.generation,
                    trigger: ReevaluationTrigger::Periodic,
                },
            );
        }
    }

    /// Schedules the next preemption point of a job that is still running.
    fn schedule_next_point(&mut self, id: JobId, d: DeviceId, version: u64)
        requires
            old(self).wf(),
            old(self)@.has_device(d),
        ensures
            final(self).wf(),
            final(self)@ == old(self)@.next_point(id, d, version),
    {
        let model: VirtualDeviceModel = VirtualDeviceModel::from_device(self.devices.device(d));
        let interval: Nanos = match model.preemption_point_interval_ns() {
            Some(interval) => interval,
            None => {
                return;
            },
        };
        let runs_there: bool = match self.device_of(id) {
            Some(device) => device == d,
            None => false,
        };
        if interval > 0 && runs_there {
            if let Some(job) = self.job(id) {
                if job.version == version {
                    self.schedule_event(
                        self.now.saturating_add(interval),
                        EventKind::PreemptionPoint {
                            device_id: d,
                            job_id: id,
                            expected_version: version,
                        },
                    );
                }
            }
        }
    }
}

/// Tells whether a device type is listed.
fn lists_type(types: &Vec<DeviceType>, dt: DeviceType) -> (yes: bool)
    ensures
        yes == types@.contains(dt),
{
    let mut i: usize = 0;
    while i < types.len()
        invariant
            i <= types@.len(),
            forall|k: int| 0 <= k < i ==> #[trigger] types@[k] != dt,
        decreases types@.len() - i,
    {
        if types[i] == dt {
            return true;
        }
        i = i + 1;
    }
    false
}

impl SimEngine {
    /// Whether what is shown to schedulers is the current state.
    closed spec fn is_shown(&self) -> bool {
        &&& forall|i: int|
            0 <= i < self.devices.device_list().len() ==> (
            #[trigger] self.devices.shown_running()[i]).1 == match self.devices.running_ids()[i] {
                Some(id) => device_manager::running_info(self.jobs@, self.tasks@, self.now, id),
                None => None,
            }
        &&& forall|i: int|
            0 <= i < self.devices.device_list().len() ==> (
            #[trigger] self.devices.shown_queues()[i]).1@ == device_manager::queued_infos(
                self.jobs@,
                self.tasks@,
                self.devices.queues()[i],
            )
    }

    /// Brings what is shown to schedulers up to date.
    fn refresh(&mut self)
        requires
            old(self).wf(),
        ensures
            final(self).wf(),
            final(self)@ == old(self)@,
            final(self).is_shown(),
    {
        let ghost before = self@;
        proof {
            assert forall|i: int|
                0 <= i < self.devices.device_list().len() && self.devices.running_ids()[i]
                    is Some implies self@.known(
                #[trigger] self.devices.running_ids()[i]->0,
            ) by {}
        }
        let now: Nanos = self.now;
        self.devices.rebuild_view_data(now, self.jobs.as_slice(), self.tasks.as_slice());
        proof {
            assert forall|i: int| 0 <= i < self.devices.device_list().len() implies (
            #[trigger] self.devices.shown_queues()[i]).1@ == device_manager::queued_infos(
                self.jobs@,
                self.tasks@,
                self.devices.queues()[i],
            ) by {
                assert(old(self).devices.dirty()[i] || old(self).devices.shown_queues()[i].1@
                    == device_manager::queued_infos(
                    self.jobs@,
                    self.tasks@,
                    old(self).devices.queues()[i],
                ));
            }
            assert(self@ =~= before);
            assert forall|i: int, k: int|
                0 <= i < self.devices.device_list().len() && 0 <= k
                    < self.devices.queues()[i].len() implies self@.known(
                (#[trigger] self.devices.queues()[i][k]).job_id,
            ) by {
                assert(before.known(old(self).devices.queues()[i][k].job_id));
            }
            assert forall|i: int| 0 <= i < self.devices.device_list().len() implies ((
            #[trigger] self.devices.running_ids()[i]) matches Some(id) ==> self@.known(id)) by {
                assert(old(self).devices.running_ids()[i] == self.devices.running_ids()[i]);
            }
        }
    }

    /// The view for schedulers.
    fn current_view(&self) -> (view: SchedulerView<'_>)
        requires
            self.wf(),
            self.is_shown(),
        ensures
            view@ == drive::sight(self@),
    {
        self.devices.scheduler_view(self.now, self.criticality_level)
    }

    /// What a scheduler sees now.
    pub fn observe(&mut self) -> (view: SchedulerView<'_>)
        requires
            old(self).wf(),
        ensures
            view@ == drive::sight(old(self)@),
            final(self).wf(),
            final(self)@ == old(self)@,
    {
        self.refresh();
        self.current_view()
    }

    /// Asks the scheduler about a job that has arrived.
    fn ask_arrival<S: Scheduler>(&mut self, scheduler: &mut S, id: JobId) -> (actions: Vec<Action>)
        requires
            old(self).wf(),
            old(self)@.known(id),
        ensures
            final(self).wf(),
            final(self)@ == old(self)@,
            drive::about_arrival(old(self)@, id, *old(scheduler), actions@, *final(scheduler)),
    {
        self.refresh();
        match self.known_job(id) {
            Some(job) => {
                let view: SchedulerView<'_> = self.current_view();
                scheduler.on_job_arrival(&job, &self.tasks[job.task_id.0 as usize], &view)
            },
            None => Vec::new(),
        }
    }

    /// Asks the scheduler about a job that has completed.
    fn ask_completion<S: Scheduler>(&mut self, scheduler: &mut S, id: JobId, d: DeviceId) -> (
        actions: Vec<Action>)
        requires
            old(self).wf(),
            old(self)@.job(id) is Some,
        ensures
            final(self).wf(),
            final(self)@ == old(self)@,
            drive::about_completion(
                old(self)@,
                id,
                d,
                *old(scheduler),
                actions@,
                *final(scheduler),
            ),
    {
        self.refresh();
        match self.job(id) {
            Some(job) => {
                let view: SchedulerView<'_> = self.current_view();
                scheduler.on_job_complete(&job, d, &view)
            },
            None => Vec::new(),
        }
    }

    /// Asks the scheduler about a job at a preemption point.
    fn ask_preemption<S: Scheduler>(&mut self, scheduler: &mut S, id: JobId, d: DeviceId) -> (
        actions: Vec<Action>)
        requires
            old(self).wf(),
            old(self)@.job(id) is Some,
        ensures
            final(self).wf(),
            final(self)@ == old(self)@,
            drive::about_point(
                old(self)@,
                id,
                d,
                *old(scheduler),
                actions@,
                *final(scheduler),
            ),
    {
        self.refresh();
        match self.job(id) {
            Some(job) => {
                let view: SchedulerView<'_> = self.current_view();
                scheduler.on_preemption_point(d, &job, &view)
            },
            None => Vec::new(),
        }
    }

    /// Tells the scheduler that the criticality level has risen.
    fn ask_criticality<S: Scheduler>(&mut self, scheduler: &mut S, id: JobId) -> (actions: Vec<
        Action,
    >)
        requires
            old(self).wf(),
            old(self)@.job(id) is Some,
        ensures
            final(self).wf(),
            final(self)@ == old(self)@,
            drive::about_change(old(self)@, id, *old(scheduler), actions@, *final(scheduler)),
    {
        self.refresh();
        match self.job(id) {
            Some(job) => {
                let view: SchedulerView<'_> = self.current_view();
                scheduler.on_criticality_change(self.criticality_level, &job, &view)
            },
            None => Vec::new(),
        }
    }

    /// Asks the scheduler about an idle device.
    fn ask_idle<S: Scheduler>(&mut self, scheduler: &mut S, d: DeviceId) -> (actions: Vec<Action>)
        requires
            old(self).wf(),
        ensures
            final(self).wf(),
            final(self)@ == old(self)@,
            drive::about_idle(old(self)@, d, *old(scheduler), actions@, *final(scheduler)),
    {
        self.refresh();
        let view: SchedulerView<'_> = self.current_view();
        scheduler.on_device_idle(d, &view)
    }

    /// Asks the scheduler to reevaluate.
    fn ask_reevaluation<S: Scheduler>(&mut self, scheduler: &mut S, trigger: ReevaluationTrigger)
        -> (actions: Vec<Action>)
        requires
            old(self).wf(),
        ensures
            final(self).wf(),
            final(self)@ == old(self)@,
            drive::about_reevaluation(
                old(self)@,
                trigger,
                *old(scheduler),
                actions@,
                *final(scheduler),
            ),
    {
        self.refresh();
        let view: SchedulerView<'_> = self.current_view();
        scheduler.on_reevaluation(trigger, &view)
    }

    /// Handles an arrival.
    fn handle_arrival<S: Scheduler>(&mut self, scheduler: &mut S, id: JobId) -> (answer: Ghost<
        Seq<Action>,
    >)
        requires
            old(self).wf(),
        ensures
            final(self).wf(),
            final(self)@ == if old(self)@.arrives(id) {
                old(self)@.arriving(id).applied_all(answer@, None).reevaluation_due()
            } else {
                old(self)@
            },
            if old(self)@.arrives(id) {
                drive::about_arrival(
                    old(self)@.arriving(id),
                    id,
                    *old(scheduler),
                    answer@,
                    *final(scheduler),
                )
            } else {
                *final(scheduler) == *old(scheduler)
            },
    {
        let job: Job = match self.known_job(id) {
            Some(job) => job,
            None => {
                return Ghost(Seq::empty());
            },
        };
        if job.state != JobState::Released {
            return Ghost(Seq::empty());
        }
        let ghost before = self@;
        self.begin_arrival(id, job.task_id);
        proof {
            pace::lemma_arriving_keeps_jobs(before, id);
        }
        let actions: Vec<Action> = self.ask_arrival(scheduler, id);
        self.apply_actions(&actions, None);
        self.trigger_reevaluation();
        Ghost(actions@)
    }

    /// Handles a completion.
    fn handle_completion<S: Scheduler>(&mut self, scheduler: &mut S, id: JobId, d: DeviceId) -> (
        answer: Ghost<Seq<Action>>)
        requires
            old(self).wf(),
        ensures
            final(self).wf(),
            final(self)@ == if old(self)@.device_of(id) == Some(d) {
                old(self)@.completing(id, d).applied_all(answer@, None).reevaluation_due()
            } else {
                old(self)@
            },
            if old(self)@.device_of(id) == Some(d) {
                drive::about_completion(
                    old(self)@.completing(id, d),
                    id,
                    d,
                    *old(scheduler),
                    answer@,
                    *final(scheduler),
                )
            } else {
                *final(scheduler) == *old(scheduler)
            },
    {
        let runs_there: bool = match self.device_of(id) {
            Some(device) => device == d,
            None => false,
        };
        if !runs_there {
            return Ghost(Seq::empty());
        }
        self.complete_job(id, d);
        let actions: Vec<Action> = self.ask_completion(scheduler, id, d);
        self.apply_actions(&actions, None);
        self.trigger_reevaluation();
        Ghost(actions@)
    }

    /// Handles a preemption point.
    fn handle_preemption_point<S: Scheduler>(
        &mut self,
        scheduler: &mut S,
        id: JobId,
        d: DeviceId,
        version: u64,
    ) -> (answer: Ghost<Seq<Action>>)
        requires
            old(self).wf(),
        ensures
            final(self).wf(),
            final(self)@ == if old(self)@.device_of(id) == Some(d) {
                old(self)@.applied_all(answer@, Some(d)).next_point(id, d, version)
            } else {
                old(self)@
            },
            if old(self)@.device_of(id) == Some(d) {
                drive::about_point(
                    old(self)@,
                    id,
                    d,
                    *old(scheduler),
                    answer@,
                    *final(scheduler),
                )
            } else {
                *final(scheduler) == *old(scheduler)
            },
    {
        let runs_there: bool = match self.device_of(id) {
            Some(device) => device == d,
            None => false,
        };
        if !runs_there {
            return Ghost(Seq::empty());
        }
        let ghost before = self@;
        let actions: Vec<Action> = self.ask_preemption(scheduler, id, d);
        self.apply_actions(&actions, Some(d));
        proof {
            pace::law_actions_keep_frame(before, actions@, Some(d));
        }
        self.schedule_next_point(id, d, version);
        Ghost(actions@)
    }

    /// Handles a deadline check.
    fn handle_deadline<S: Scheduler>(&mut self, scheduler: &mut S, id: JobId) -> (answer: Ghost<
        Seq<Action>,
    >)
        requires
            old(self).wf(),
        ensures
            final(self).wf(),
            final(self)@ == match old(self)@.job(id) {
                Some(job) => if job.missed_at(old(self)@.now) {
                    match old(self)@.device_of(id) {
                        Some(_) => old(self)@.missing(id).applied_all(answer@, None),
                        None => old(self)@.missing(id),
                    }
                } else {
                    old(self)@
                },
                None => old(self)@,
            },
            match (old(self)@.job(id), old(self)@.device_of(id)) {
                (Some(job), Some(d)) => if job.missed_at(old(self)@.now) {
                    drive::about_idle(
                        old(self)@.missing(id),
                        d,
                        *old(scheduler),
                        answer@,
                        *final(scheduler),
                    )
                } else {
                    *final(scheduler) == *old(scheduler)
                },
                _ => *final(scheduler) == *old(scheduler),
            },
    {
        let job: Job = match self.job(id) {
            Some(job) => job,
            None => {
                return Ghost(Seq::empty());
            },
        };
        if !job.has_missed_deadline(self.now) {
            return Ghost(Seq::empty());
        }
        let freed: Option<DeviceId> = self.device_of(id);
        self.miss_deadline(id, job.task_id);
        match freed {
            Some(d) => {
                let actions: Vec<Action> = self.ask_idle(scheduler, d);
                self.apply_actions(&actions, None);
                Ghost(actions@)
            },
            None => Ghost(Seq::empty()),
        }
    }

    /// Switches to the high criticality level.
    fn switch_criticality<S: Scheduler>(&mut self, scheduler: &mut S, id: JobId) -> (answers: Ghost<
        Seq<Seq<Action>>,
    >)
        requires
            old(self).wf(),
            old(self)@.job(id) is Some,
        ensures
            final(self).wf(),
            final(self)@ == old(self)@.switched(answers@),
            drive::about_switch(old(self)@, id, *old(scheduler), answers@, *final(scheduler)),
    {
        self.criticality_level = CriticalityLevel::Hi;
        proof {
            self.lemma_places_kept(old(self));
        }
        let ghost high = self@;
        let actions: Vec<Action> = self.ask_criticality(scheduler, id);
        let ghost mind = *scheduler;
        self.apply_actions(&actions, None);
        let ghost told = self@;
        proof {
            pace::law_actions_keep_frame(high, actions@, None);
        }
        self.drop_active_lo();
        let ghost left = self@;
        proof {
            pace::law_drops_keep_frame(told, told.jobs.len() as int);
        }
        let ghost mut answers: Seq<Seq<Action>> = seq![actions@];
        let n: usize = self.devices.devices().len();
        let mut i: usize = 0;
        while i < n
            invariant
                i <= n <= u32::MAX,
                n == left.devices.len(),
                self.wf(),
                self@.devices == left.devices,
                answers.len() == i + 1,
                answers[0] == actions@,
                self@ == left.polled(answers, i as int),
                drive::about_idle_devices(left, i as int, mind, answers, *scheduler),
            decreases n - i,
        {
            let d = DeviceId(i as u32);
            let ghost polled = self@;
            let ghost asking = *scheduler;
            let ghost mut given: Seq<Action> = Seq::empty();
            if self.devices.running_job(d).is_none() {
                let next: Vec<Action> = self.ask_idle(scheduler, d);
                self.apply_actions(&next, None);
                proof {
                    given = next@;
                    pace::law_actions_keep_frame(polled, next@, None);
                }
            }
            proof {
                let more = answers.push(given);
                assert(more.take(answers.len() as int) =~= answers);
                sim::lemma_polled(left, answers, more, i as int);
                drive::lemma_idle_devices(left, i as int, mind, answers, more, asking);
                answers = more;
                assert(sim::answer(answers, i as int + 1) == given);
            }
            i = i + 1;
        }
        proof {
            assert(drive::about_change(high, id, *old(scheduler), sim::answer(answers, 0), mind));
        }
        Ghost(answers)
    }

    /// Handles an event that is not stale.
    fn handle<S: Scheduler>(&mut self, scheduler: &mut S, kind: EventKind) -> (answers: Ghost<
        Seq<Seq<Action>>,
    >)
        requires
            old(self).wf(),
        ensures
            final(self).wf(),
            final(self)@ == old(self)@.handled(kind, answers@),
            drive::answered(old(self)@, kind, *old(scheduler), answers@, *final(scheduler)),
    {
        proof {
            reveal(Sim::handled);
        }
        match kind {
            EventKind::TaskArrival { job_id, .. } => {
                let Ghost(answer) = self.handle_arrival(scheduler, job_id);
                Ghost(Seq::empty().push(answer))
            },
            EventKind::JobComplete { job_id, device_id, .. } => {
                let Ghost(answer) = self.handle_completion(scheduler, job_id, device_id);
                Ghost(Seq::empty().push(answer))
            },
            EventKind::PreemptionPoint { device_id, job_id, expected_version } => {
                let Ghost(answer) = self.handle_preemption_point(
                    scheduler,
                    job_id,
                    device_id,
                    expected_version,
                );
                Ghost(Seq::empty().push(answer))
            },
            EventKind::TransferComplete { job_id, device_id, .. } => {
                self.finish_transfer(job_id, device_id);
                Ghost(Seq::empty())
            },
            EventKind::EdgeTransferComplete { edge_id, .. } => {
                self.finish_edge_transfer(edge_id);
                Ghost(Seq::empty())
            },
            EventKind::BusArbitration { bus_id } => {
                self.arbitrate(bus_id);
                Ghost(Seq::empty())
            },
            EventKind::DeadlineCheck { job_id, .. } => {
                let Ghost(answer) = self.handle_deadline(scheduler, job_id);
                Ghost(Seq::empty().push(answer))
            },
            EventKind::BudgetOverrun { job_id, .. } => {
                if self.criticality_level == CriticalityLevel::Lo && self.job(job_id).is_some() {
                    self.switch_criticality(scheduler, job_id)
                } else {
                    Ghost(Seq::empty())
                }
            },
            EventKind::SchedulerReevaluation { generation, trigger } => {
                if generation != self.generation {
                    return Ghost(Seq::empty());
                }
                let actions: Vec<Action> = self.ask_reevaluation(scheduler, trigger);
                self.apply_actions(&actions, None);
                if trigger == ReevaluationTrigger::Periodic {
                    self.schedule_reevaluation();
                }
                Ghost(Seq::empty().push(actions@))
            },
            EventKind::SimulationEnd => Ghost(Seq::empty()),
        }
    }

    /// The job that an event is about.
    fn event_job_id(kind: &EventKind) -> (id: Option<JobId>)
        ensures
            match id {
                Some(job) => match kind.target() {
                    Some((j, _)) => j == job,
                    None => kind matches EventKind::DeadlineCheck { job_id, .. } && job_id == job,
                },
                None => kind.target() is None && !(kind is DeadlineCheck),
            },
    {
        match kind {
            EventKind::JobComplete { job_id, .. }
            | EventKind::PreemptionPoint { job_id, .. }
            | EventKind::TransferComplete { job_id, .. }
            | EventKind::DeadlineCheck { job_id, .. }
            | EventKind::EdgeTransferComplete { job_id, .. }
            | EventKind::BudgetOverrun { job_id, .. } => Some(*job_id),
            _ => None,
        }
    }

    /// Moves the clock to an event's time and attends to it, unless it is
    /// stale.
    fn attend<S: Scheduler>(&mut self, scheduler: &mut S, event: Event) -> (answers: Ghost<
        Seq<Seq<Action>>,
    >)
        requires
            old(self).wf(),
            forall|e: Event| #[trigger] old(self)@.events.count(e) > 0 ==> e.time >= event.time,
        ensures
            final(self).wf(),
            final(self)@ == old(self)@.attended(event, answers@),
            drive::consulted(old(self)@, event, *old(scheduler), answers@, *final(scheduler)),
    {
        self.now = event.time;
        proof {
            self.lemma_places_kept(old(self));
        }
        if let Some(id) = Self::event_job_id(&event.kind) {
            if let Some(job) = self.job(id) {
                if event.kind.is_stale(job.version) {
                    return Ghost(Seq::empty());
                }
            }
        }
        let ghost at = self@;
        self.events_processed = self.events_processed.saturating_add(1);
        proof {
            self.lemma_places_kept(old(self));
            assert(self@ =~= Sim { processed: arith::sat_add(at.processed, 1), ..at });
        }
        self.handle(scheduler, event.kind)
    }

    /// Begins a run.
    fn begin(&mut self, policy: ReevaluationPolicy)
        requires
            old(self).wf(),
        ensures
            final(self).wf(),
            final(self)@ == old(self)@.begun(policy),
    {
        self.policy = policy;
        self.generation = self.generation.saturating_add(1);
        self.last_reevaluation = None;
        proof {
            self.lemma_places_kept(old(self));
        }
        let end: Nanos = if self.now > self.config.duration_ns {
            self.now
        } else {
            self.config.duration_ns
        };
        self.schedule_event(end, EventKind::SimulationEnd);
        self.schedule_reevaluation();
    }

    /// Runs the simulation until its end or until nothing is pending, asking
    /// the scheduler at every event.
    pub fn run<S: Scheduler>(&mut self, scheduler: &mut S)
        requires
            old(self).wf(),
        ensures
            final(self).wf(),
            drive::drives(*old(scheduler), old(self)@, *final(scheduler), final(self)@),
    {
        let policy: ReevaluationPolicy = scheduler.reevaluation_policy();
        let ghost first = self@.begun(policy);
        self.begin(policy);
        let ghost mut events: Seq<Event> = Seq::empty();
        let ghost mut states: Seq<Sim> = seq![self@];
        let ghost mut minds: Seq<S> = seq![*scheduler];
        let mut ended: bool = false;
        while !ended
            invariant
                self.wf(),
                minds.len() == states.len(),
                minds[0] == *old(scheduler),
                minds.last() == *scheduler,
                forall|i: int|
                    0 <= i < events.len() ==> drive::steps_by(
                        states[i],
                        minds[i],
                        #[trigger] events[i],
                        states[i + 1],
                        minds[i + 1],
                    ),
                states.len() == events.len() + 1,
                states[0] == first,
                states.last() == self@,
                forall|i: int|
                    0 <= i < events.len() ==> sim::steps(
                        states[i],
                        #[trigger] events[i],
                        states[i + 1],
                    ),
                forall|i: int|
                    0 <= i < events.len() - 1 ==> !((#[trigger] events[i]).kind is SimulationEnd),
                !ended ==> (events.len() > 0 ==> !(events.last().kind is SimulationEnd)),
                ended ==> (self@.events.len() == 0 || (events.len() > 0 && events.last().kind
                    is SimulationEnd)),
            decreases
                    (if ended {
                        0int
                    } else {
                        pace::remaining_steps(self@) + 1
                    }),
        {
            let ghost before = self@;
            let ghost mind = *scheduler;
            match self.pop_event() {
                None => {
                    ended = true;
                },
                Some(event) => {
                    proof {
                        assert forall|e: Event| #[trigger] self@.events.count(e) > 0 implies e.time
                            >= event.time by {
                            assert(before.events.count(e) > 0);
                        }
                    }
                    let Ghost(answers) = self.attend(scheduler, event);
                    proof {
                        pace::law_runs_end(before, event, answers);
                        assert(self@ == before.processed_event(event, answers));
                        assert(sim::steps(before, event, self@));
                        assert(drive::steps_by(before, mind, event, self@, *scheduler));
                        let n = events.len() as int;
                        let more = events.push(event);
                        let after = states.push(self@);
                        let known = minds.push(*scheduler);
                        assert forall|i: int| 0 <= i < more.len() implies drive::steps_by(
                            after[i],
                            known[i],
                            #[trigger] more[i],
                            after[i + 1],
                            known[i + 1],
                        ) by {
                            if i < n {
                                assert(more[i] == events[i]);
                                assert(after[i] == states[i] && after[i + 1] == states[i + 1]);
                                assert(known[i] == minds[i] && known[i + 1] == minds[i + 1]);
                            }
                        }
                        assert forall|i: int| 0 <= i < more.len() implies sim::steps(
                            after[i],
                            #[trigger] more[i],
                            after[i + 1],
                        ) by {
                            if i < n {
                                assert(more[i] == events[i]);
                                assert(after[i] == states[i] && after[i + 1] == states[i + 1]);
                            }
                        }
                        events = more;
                        states = after;
                        minds = known;
                    }
                    if let EventKind::SimulationEnd = event.kind {
                        ended = true;
                    }
                },
            }
        }
        proof {
            assert(sim::is_run(old(self)@.begun(policy), events, states));
            assert(drive::is_run_by(old(self)@.begun(policy), events, states, minds));
        }
    }
}

/// The outcome of a simulation.
#[derive(Debug)]
pub struct SimResult {
    pub total_jobs: u64,
    pub completed_jobs: u64,
    pub deadline_misses: u64,
    pub miss_ratio: Ratio,
    pub schedulable: bool,
    /// Time from the first release to the last completion, zero without any.
    pub makespan: Nanos,
    /// Average response time, zero without any.
    pub avg_response_time: Ratio,
    pub events_processed: u64,
    pub per_device_utilization: Vec<DeviceUtilization>,
    pub transfer_overhead: Nanos,
    pub blocking_breakdown: BlockingBreakdown,
    pub worst_response_time: Nanos,
    pub preemption_count: u64,
    pub migration_count: u64,
    pub bus_contention_ratio: Ratio,
    /// Energy in picojoules, over the devices whose power is known.
    pub energy_picojoules: u128,
}

/// The number an option holds, else zero.
pub open spec fn or_zero(ns: Option<Nanos>) -> Nanos {
    match ns {
        Some(n) => n,
        None => 0,
    }
}

/// The energy that the first `n` devices have used: power times busy time, for
/// each device rounded down to picojoules, held at the largest `u128`.
pub open spec fn energy(devices: Seq<DeviceConfig>, busy: Seq<Nanos>, n: int) -> u128
    decreases n,
{
    if n <= 0 {
        0
    } else {
        let rest = energy(devices, busy, n - 1);
        match devices[n - 1].power_watts {
            Some(power) => arith::clamp_u128(
                rest + arith::thousandths_at_rate(busy[n - 1], power),
            ),
            None => rest,
        }
    }
}

/// The busy time of every device by its id.
pub open spec fn busy_list(devices: Seq<DeviceConfig>, busy: Seq<Nanos>) -> Seq<(DeviceId, Nanos)> {
    Seq::new(devices.len(), |i: int| (devices[i].id, busy[i]))
}

impl SimEngine {
    /// Current simulation time.
    pub fn now(&self) -> (time: Nanos)
        ensures
            time == self@.now,
    {
        self.now
    }

    /// Number of events that were not stale.
    pub fn events_processed(&self) -> (n: u64)
        ensures
            n == self@.processed,
    {
        self.events_processed
    }

    /// The metrics collected so far.
    pub fn metrics(&self) -> (metrics: &MetricsCollector)
        ensures
            tally_of(metrics) == self@.tally,
    {
        &self.metrics
    }

    /// Looks up a job to change it. The engine stays well-formed where the job
    /// keeps its identity, and under any change to a job that waits in no queue
    /// and is still of a known task or runs nowhere.
    pub fn get_job_mut(&mut self, id: JobId) -> (job: Option<&mut Job>)
        requires
            old(self).wf(),
        ensures
            match job {
                Some(j) => {
                    &&& old(self)@.job(id) == Some(*j)
                    &&& final(self)@ == old(self)@.with_job(id, *final(j))
                    &&& may_become(old(self)@, id, *j, *final(j)) ==> final(self).wf()
                },
                None => {
                    &&& old(self)@.job(id) is None
                    &&& final(self)@ == old(self)@
                    &&& final(self).wf()
                },
            },
    {
        let ghost before = *self;
        proof {
            assert forall|after: SimEngine, o: Job, job: Job|
                before@.job(id) == Some(o) && #[trigger] may_become(before@, id, o, job) && after
                    == (SimEngine { jobs: after.jobs, ..before }) && after.jobs@
                    == before.jobs@.update(id.0 as int, Some(job)) implies #[trigger] after.wf() by {
                if device_manager::same_face(o, job) {
                    after.lemma_places_kept(&before);
                } else {
                    after.lemma_waits_nowhere(&before, id, o, job);
                }
            }
        }
        if id.0 < self.jobs.len() as u64 {
            match &mut self.jobs[id.0 as usize] {
                Some(job) => Some(job),
                None => None,
            }
        } else {
            None
        }
    }

    /// The timeline of completions and misses as JSON lines.
    pub fn trace_jsonl(&self) -> (text: Result<String, serde_json::Error>)
        ensures
            text is Ok,
            text->Ok_0@ == metrics::lines(
                order::sorted(
                    metrics::completion_rows(self@.tally.completions) + metrics::miss_rows(
                        self@.tally.misses,
                    ),
                    metrics::row_time(),
                ),
            ),
    {
        self.metrics.to_jsonl()
    }

    /// The outcome so far.
    pub fn summary(&self) -> (result: SimResult)
        requires
            self.wf(),
        ensures
            reports(self@, &result),
    {
        let stats: TransferStats = self.transfers.stats();
        let busy: Vec<(DeviceId, Nanos)> = self.busy_by_device();
        let makespan: Nanos = match self.metrics.makespan() {
            Some(ns) => ns,
            None => 0,
        };
        let avg_response_time: Ratio = match self.metrics.avg_response_time() {
            Some(ratio) => ratio,
            None => Ratio::new(0, 1),
        };
        let worst_response_time: Nanos = match self.metrics.worst_response_time() {
            Some(ns) => ns,
            None => 0,
        };
        SimResult {
            total_jobs: self.metrics.total_jobs,
            completed_jobs: self.metrics.completed_jobs,
            deadline_misses: self.metrics.deadline_misses,
            miss_ratio: self.metrics.miss_ratio(),
            schedulable: self.metrics.is_schedulable(),
            makespan,
            avg_response_time,
            events_processed: self.events_processed,
            per_device_utilization: self.metrics.per_device_utilization(busy.as_slice()),
            transfer_overhead: stats.total_transfer_time_ns,
            blocking_breakdown: BlockingBreakdown {
                transfer_ns: stats.total_transfer_time_ns,
                migration_ns: stats.migration_transfer_time_ns,
                bus_wait_ns: stats.bus_wait_time_ns,
            },
            worst_response_time,
            preemption_count: self.preemption_count,
            migration_count: self.migration_count,
            bus_contention_ratio: stats.bus_contention_ratio(),
            energy_picojoules: self.total_energy(),
        }
    }

    /// Lists the busy time of every device.
    fn busy_by_device(&self) -> (list: Vec<(DeviceId, Nanos)>)
        requires
            self.wf(),
        ensures
            list@ == busy_list(self@.devices, self@.busy),
    {
        let devices: &[DeviceConfig] = self.devices.devices();
        let ghost all = busy_list(self@.devices, self@.busy);
        let mut list: Vec<(DeviceId, Nanos)> = Vec::new();
        let mut i: usize = 0;
        while i < devices.len()
            invariant
                i <= devices@.len(),
                devices@ == self@.devices,
                self.busy_ns@.len() == devices@.len(),
                all == busy_list(self@.devices, self@.busy),
                list@ == all.take(i as int),
            decreases devices@.len() - i,
        {
            list.push((devices[i].id, self.busy_ns[i]));
            proof {
                assert(list@ =~= all.take(i as int + 1));
            }
            i = i + 1;
        }
        proof {
            assert(all.take(i as int) =~= all);
        }
        list
    }

    /// Adds up the energy used.
    fn total_energy(&self) -> (pj: u128)
        requires
            self.wf(),
        ensures
            pj == energy(self@.devices, self@.busy, self@.devices.len() as int),
    {
        let devices: &[DeviceConfig] = self.devices.devices();
        let mut total: u128 = 0;
        let mut i: usize = 0;
        while i < devices.len()
            invariant
                i <= devices@.len(),
                devices@ == self@.devices,
                self.busy_ns@.len() == devices@.len(),
                total == energy(self@.devices, self@.busy, i as int),
            decreases devices@.len() - i,
        {
            if let Some(power) = devices[i].power_watts {
                total = total.saturating_add(arith::thousandths_in(self.busy_ns[i], power));
            }
            i = i + 1;
        }
        total
    }
}

} // verus!

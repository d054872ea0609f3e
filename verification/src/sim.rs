//! The simulation as a state machine: what the engine holds, and what every
//! action and every event makes of it.
//!
//! A scheduler's answers are the only input. Given them, each transition below
//! is a function of the state, and the engine's contracts say that it performs
//! exactly these transitions.

use crate::arith;
use crate::arith::Rate;
use crate::dag::{DagInstanceId, DagProvenance, EdgeTransferId, SubTaskIdx};
use crate::dag_tracker;
use crate::dag_tracker::DagState;
use crate::device::{DeviceConfig, InterconnectConfig, SharedBusConfig};
use crate::device_manager;
use crate::device_manager::QueueEntry;
use crate::event::{Event, EventKind};
use crate::ids::{DeviceId, JobId, TaskId};
use crate::job::{Job, JobState};
use crate::metrics::{CompletionRecord, MissRecord};
use crate::scheduler::{Action, ReevaluationPolicy, ReevaluationTrigger};
use crate::search;
use crate::task;
use crate::task::{CriticalityLevel, DagTask, DeviceType, Task};
use crate::time::Nanos;
use crate::transfer_manager::{
    JobTransferKind, ScheduledEvent, TransferId, TransferReason, TransferRequest, TransferStats,
    Transfers,
};
use crate::virtual_device::{DispatchTimingInput, VirtualDeviceModel};
use vstd::multiset::Multiset;
use vstd::prelude::*;

verus! {

/// What has been counted.
#[verifier::ext_equal]
pub struct Tally {
    pub total: u64,
    pub completed: u64,
    pub missed: u64,
    pub completions: Seq<CompletionRecord>,
    pub misses: Seq<MissRecord>,
}

/// The state of a simulation.
#[verifier::ext_equal]
pub struct Sim {
    /// Configured length.
    pub duration: Nanos,
    /// The clock.
    pub now: Nanos,
    /// Sequence number of the next event.
    pub seq: u64,
    /// Pending events.
    pub events: Multiset<Event>,
    /// Jobs by id.
    pub jobs: Seq<Option<Job>>,
    /// Tasks by id.
    pub tasks: Seq<Task>,
    pub level: CriticalityLevel,
    pub devices: Seq<DeviceConfig>,
    /// The job running on each device.
    pub running: Seq<Option<JobId>>,
    /// The ready queue of each device.
    pub queues: Seq<Seq<QueueEntry>>,
    /// How long each device has executed jobs.
    pub busy: Seq<Nanos>,
    pub links: Seq<InterconnectConfig>,
    pub buses: Seq<SharedBusConfig>,
    pub transfers: Transfers,
    pub dags: Seq<DagState>,
    pub tally: Tally,
    /// Events that were not stale.
    pub processed: u64,
    pub preemptions: u64,
    pub migrations: u64,
    /// When the scheduler is asked to reevaluate.
    pub policy: ReevaluationPolicy,
    /// Number of the current run; reevaluations of earlier ones are void.
    pub generation: u64,
    /// Last event-triggered reevaluation.
    pub last_reevaluation: Option<Nanos>,
}

/// A job in a new state.
pub open spec fn moved(job: Job, state: JobState) -> Job {
    Job { state, version: arith::sat_add(job.version, 1), ..job }
}

/// Whether a job in a state can be given a place on a device.
pub open spec fn is_waiting(state: JobState) -> bool {
    state is Released || state is Ready || state is Suspended
}

/// The rate at which a device executes; the slowest one is a thousandth.
pub open spec fn speed_of(device: DeviceConfig) -> Rate {
    device.speed_factor.floored()
}

/// Whether a device is a CPU.
pub open spec fn is_cpu() -> spec_fn(DeviceConfig) -> bool {
    |d: DeviceConfig| d.device_type is Cpu
}

/// Whether a device is of one of the types.
pub open spec fn is_of(types: Seq<DeviceType>) -> spec_fn(DeviceConfig) -> bool {
    |d: DeviceConfig| types.contains(d.device_type)
}

/// A scheduler's answer by number, nothing where there is none.
pub open spec fn answer(answers: Seq<Seq<Action>>, i: int) -> Seq<Action> {
    if 0 <= i < answers.len() {
        answers[i]
    } else {
        Seq::empty()
    }
}

impl Sim {
    /// A job by its id.
    pub open spec fn job(self, id: JobId) -> Option<Job> {
        device_manager::job_at(self.jobs, id)
    }

    /// Whether a device exists.
    pub open spec fn has_device(self, d: DeviceId) -> bool {
        d.0 < self.devices.len()
    }

    /// Whether a job exists and its task is known.
    pub open spec fn known(self, id: JobId) -> bool {
        self.job(id) matches Some(job) && job.task_id.0 < self.tasks.len()
    }

    /// The task of a job.
    pub open spec fn task_of(self, id: JobId) -> Task {
        self.tasks[self.job(id)->0.task_id.0 as int]
    }

    /// Whether a job waits for a place and a device can run it.
    pub open spec fn placeable(self, id: JobId, d: DeviceId) -> bool {
        &&& self.known(id)
        &&& self.has_device(d)
        &&& is_waiting(self.job(id)->0.state)
        &&& self.executable(id, d)
    }

    /// Whether the execution time of a job on a device is known.
    pub open spec fn executable(self, id: JobId, d: DeviceId) -> bool {
        self.job(id)->0.actual_exec_ns is Some || task::model_index(
            self.task_of(id).exec_times@,
            self.devices[d.0 as int].device_type,
        ) is Some
    }

    /// The execution time of a job on a device.
    pub open spec fn exec_time(self, id: JobId, d: DeviceId) -> Nanos {
        match self.job(id)->0.actual_exec_ns {
            Some(ns) => ns,
            None => {
                let times = self.task_of(id).exec_times@;
                let i = task::model_index(times, self.devices[d.0 as int].device_type)->0;
                times[i].1.worst_at(self.level)
            },
        }
    }

    /// With a job replaced.
    pub open spec fn with_job(self, id: JobId, job: Job) -> Sim {
        Sim { jobs: self.jobs.update(id.0 as int, Some(job)), ..self }
    }

    /// With one more pending event. There are sequence numbers for `u64::MAX`
    /// events; one beyond these is lost.
    pub open spec fn scheduled(self, time: Nanos, kind: EventKind) -> Sim {
        if self.seq == u64::MAX {
            self
        } else {
            Sim {
                seq: (self.seq + 1) as u64,
                events: self.events.insert(Event { time, seq: self.seq, kind }),
                ..self
            }
        }
    }

    /// With more pending events.
    pub open spec fn scheduled_all(self, list: Seq<ScheduledEvent>) -> Sim
        decreases list.len(),
    {
        if list.len() == 0 {
            self
        } else {
            self.scheduled_all(list.drop_last()).scheduled(list.last().time, list.last().kind)
        }
    }

    /// With a job taken out of all queues.
    pub open spec fn unqueued(self, id: JobId) -> Sim {
        Sim {
            queues: Seq::new(
                self.queues.len(),
                |i: int| device_manager::without(self.queues[i], id),
            ),
            ..self
        }
    }

    /// With a job put into the queue of a device.
    pub open spec fn queued(self, id: JobId, d: DeviceId) -> Sim {
        let entry = QueueEntry { priority: self.job(id)->0.effective_priority, job_id: id };
        Sim {
            queues: self.queues.update(
                d.0 as int,
                device_manager::enqueued(self.queues[d.0 as int], entry),
            ),
            ..self
        }
    }

    /// The device that executes a job.
    pub open spec fn device_of(self, id: JobId) -> Option<DeviceId> {
        match self.job(id) {
            Some(job) => match job.assigned_device {
                Some(d) => if self.has_device(d) && self.running[d.0 as int] == Some(id) {
                    Some(d)
                } else {
                    None
                },
                None => None,
            },
            None => None,
        }
    }

    /// A job leaves the device it runs on, with its progress recorded.
    pub open spec fn paused(self, id: JobId, d: DeviceId) -> Sim {
        let job = self.job(id)->0;
        let elapsed = match job.exec_start_time {
            Some(start) => arith::sat_sub(self.now, start),
            None => 0,
        };
        let done = arith::done_at_rate(elapsed, speed_of(self.devices[d.0 as int]));
        let stopped = Job {
            executed_ns: arith::sat_add(job.executed_ns, done),
            exec_start_time: None,
            ..job
        };
        Sim {
            running: self.running.update(d.0 as int, None),
            busy: self.busy.update(d.0 as int, arith::sat_add(self.busy[d.0 as int], elapsed)),
            ..self.with_job(id, stopped)
        }
    }

    /// A job starts on an idle device, after a penalty. Its completion and its
    /// first preemption point are pending.
    pub open spec fn started(self, id: JobId, d: DeviceId, penalty: Nanos) -> Sim {
        let job = self.job(id)->0;
        let device = self.devices[d.0 as int];
        let model = VirtualDeviceModel::of(device.preemption);
        let exec = self.exec_time(id, d);
        let wall = arith::time_at_rate(
            arith::sat_sub(exec, job.executed_ns),
            speed_of(device),
        );
        let begin = arith::sat_add(self.now, penalty);
        let timing = model.timing_of(
            DispatchTimingInput {
                now_ns: begin,
                context_switch_ns: device.context_switch_ns,
                remaining_exec_wall_ns: wall,
            },
        );
        let delay = timing.additional_dispatch_delay_ns;
        let placed = Job {
            assigned_device: Some(d),
            exec_start_time: Some(
                arith::sat_add(arith::sat_add(begin, delay), device.context_switch_ns),
            ),
            actual_exec_ns: Some(exec),
            ..moved(job, JobState::Running)
        };
        let on_device = Sim {
            running: self.running.update(d.0 as int, Some(id)),
            ..self.unqueued(id).with_job(id, placed)
        };
        let completing = on_device.scheduled(
            arith::sat_add(timing.completion_time_ns, delay),
            EventKind::JobComplete {
                job_id: id,
                expected_version: placed.version,
                device_id: d,
            },
        );
        match model.point_interval() {
            Some(interval) => if interval > 0 {
                completing.scheduled(
                    arith::sat_add(timing.next_preemption_point_ns->0, delay),
                    EventKind::PreemptionPoint {
                        device_id: d,
                        job_id: id,
                        expected_version: placed.version,
                    },
                )
            } else {
                completing
            },
            None => completing,
        }
    }

    /// A job waits in the queue of a device.
    pub open spec fn enqueued(self, id: JobId, d: DeviceId) -> Sim {
        let job = self.job(id)->0;
        let state = if job.state is Suspended {
            JobState::Suspended
        } else {
            JobState::Ready
        };
        self.unqueued(id).with_job(id, moved(job, state)).queued(id, d)
    }

    /// Where the input data of a job is: on the device it was placed on, else
    /// on the first CPU.
    pub open spec fn origin(self, id: JobId) -> Option<DeviceId> {
        match self.job(id)->0.assigned_device {
            Some(d) => Some(d),
            None => match search::first_where(self.devices, is_cpu()) {
                Some(i) => Some(DeviceId(i as u32)),
                None => None,
            },
        }
    }

    /// Whether the input data of a job has to be moved to a device first.
    pub open spec fn needs_transfer(self, id: JobId, d: DeviceId) -> bool {
        &&& self.task_of(id).data_size > 0
        &&& self.origin(id) matches Some(o) && o != d
    }

    /// The data of a job is sent to a device.
    pub open spec fn sent(
        self,
        id: JobId,
        from: DeviceId,
        to: DeviceId,
        kind: JobTransferKind,
        state: JobState,
    ) -> Sim {
        let leaving = Job { assigned_device: Some(to), ..moved(self.job(id)->0, state) };
        let request = TransferRequest {
            id: TransferId::Job(id),
            owner_job_id: id,
            from,
            to,
            data_size: self.task_of(id).data_size,
            reason: TransferReason::Job(kind),
            priority: leaving.effective_priority,
            expected_version: leaving.version,
        };
        let (transfers, list) = self.transfers.requested(self.links, request, self.now);
        Sim { transfers, ..self.unqueued(id).with_job(id, leaving) }.scheduled_all(list)
    }

    /// A job is dispatched to a device: its data is sent there first where it
    /// has to be; otherwise the job starts, or waits while the device is busy.
    pub open spec fn dispatched(self, id: JobId, d: DeviceId) -> Sim {
        if !self.placeable(id, d) {
            self
        } else if self.needs_transfer(id, d) {
            self.sent(
                id,
                self.origin(id)->0,
                d,
                JobTransferKind::Dispatch,
                JobState::Transferring,
            )
        } else if self.running[d.0 as int] is None {
            self.started(id, d, 0)
        } else {
            self.enqueued(id, d)
        }
    }

    /// A running job is put back into the queue of its device.
    pub open spec fn suspended(self, id: JobId, d: DeviceId) -> Sim {
        let stopped = self.paused(id, d);
        let s = stopped.with_job(id, moved(stopped.job(id)->0, JobState::Suspended)).queued(id, d);
        Sim { preemptions: arith::sat_add(s.preemptions, 1), ..s }
    }

    /// Whether a device grants a preemption request, at one of its preemption
    /// points or elsewhere. Without time between the points, every moment is
    /// one.
    pub open spec fn grants(self, d: DeviceId, at_point: bool) -> bool {
        let model = VirtualDeviceModel::of(self.devices[d.0 as int].preemption);
        model.decides(at_point || model.point_interval() == Some(0u64)) is AllowNow
    }

    /// A job is to take over from a running one. Where its data has to be sent
    /// first that is done instead; where the device does not grant the
    /// preemption now, the job waits.
    pub open spec fn preempted(
        self,
        victim: JobId,
        by: JobId,
        d: DeviceId,
        at_point: bool,
    ) -> Sim {
        if !self.placeable(by, d) || self.device_of(victim) != Some(d) {
            self
        } else if self.needs_transfer(by, d) {
            self.sent(
                by,
                self.origin(by)->0,
                d,
                JobTransferKind::Dispatch,
                JobState::Transferring,
            )
        } else if self.grants(d, at_point) {
            let model = VirtualDeviceModel::of(self.devices[d.0 as int].preemption);
            self.suspended(victim, d).started(by, d, model.penalty_of())
        } else {
            self.enqueued(by, d)
        }
    }

    /// A job moves from one device to another: it leaves the one, its data is
    /// sent, and it starts or waits when that is done.
    pub open spec fn migrated(self, id: JobId, from: DeviceId, to: DeviceId) -> Sim {
        if !self.known(id) || !self.has_device(from) || !self.has_device(to) || from == to
            || !self.executable(id, to) {
            self
        } else if self.device_of(id) == Some(from) {
            let s = self.paused(id, from).sent(
                id,
                from,
                to,
                JobTransferKind::Migration,
                JobState::Migrating,
            );
            Sim { migrations: arith::sat_add(s.migrations, 1), ..s }
        } else if device_manager::place_of(self.queues[from.0 as int], id) is Some {
            let s = self.sent(id, from, to, JobTransferKind::Migration, JobState::Migrating);
            Sim { migrations: arith::sat_add(s.migrations, 1), ..s }
        } else {
            self
        }
    }

    /// A job comes to an end before it completes: it leaves its device and all
    /// queues, and its transfers are cancelled.
    pub open spec fn ended(self, id: JobId, state: JobState) -> Sim {
        let stopped = match self.device_of(id) {
            Some(d) => self.paused(id, d),
            None => self,
        };
        let (transfers, list) = stopped.transfers.cancelled(
            self.links,
            self.buses,
            id,
            self.now,
        );
        Sim {
            transfers,
            ..stopped.unqueued(id).with_job(id, moved(stopped.job(id)->0, state))
        }.scheduled_all(list)
    }

    /// A job is dropped, unless it has come to an end.
    pub open spec fn dropped(self, id: JobId) -> Sim {
        match self.job(id) {
            Some(job) => if job.state.terminal() {
                self
            } else {
                self.ended(id, JobState::Dropped)
            },
            None => self,
        }
    }

    /// One action of the scheduler, at a preemption point of a device or
    /// elsewhere.
    #[verifier::opaque]
    pub open spec fn applied(self, action: Action, at: Option<DeviceId>) -> Sim {
        match action {
            Action::Dispatch { job_id, device_id } => self.dispatched(job_id, device_id),
            Action::Preempt { victim, by, device_id } => self.preempted(
                victim,
                by,
                device_id,
                at == Some(device_id),
            ),
            Action::Migrate { job_id, from, to } => self.migrated(job_id, from, to),
            Action::Enqueue { job_id, device_id } => if self.placeable(job_id, device_id) {
                self.enqueued(job_id, device_id)
            } else {
                self
            },
            Action::DropJob { job_id } => self.dropped(job_id),
            Action::NoOp => self,
        }
    }

    /// The actions of the scheduler, one after the other.
    pub open spec fn applied_all(self, actions: Seq<Action>, at: Option<DeviceId>) -> Sim
        decreases actions.len(),
    {
        if actions.len() == 0 {
            self
        } else {
            self.applied_all(actions.drop_last(), at).applied(actions.last(), at)
        }
    }

    /// With a new job, which has just been released.
    pub open spec fn with_new_job(self, job: Job) -> Sim {
        Sim { jobs: self.jobs.push(Some(job)), ..self }
    }

    /// The next job of a task, to arrive at a time. Its deadline is checked
    /// right after it has passed.
    pub open spec fn released(
        self,
        task_id: TaskId,
        time: Nanos,
        provenance: Option<DagProvenance>,
    ) -> Sim {
        let task = self.tasks[task_id.0 as int];
        let id = JobId(self.jobs.len() as u64);
        let deadline = arith::sat_add(time, task.deadline);
        let job = Job {
            dag_provenance: provenance,
            ..Job::fresh(id, task_id, time, deadline, None, task.priority)
        };
        self.with_new_job(job).scheduled(
            time,
            EventKind::TaskArrival { task_id, job_id: id },
        ).scheduled(
            arith::sat_add(deadline, 1),
            EventKind::DeadlineCheck { job_id: id, expected_version: 0 },
        )
    }

    /// The first jobs of the first `n` tasks, except of those that only arrive
    /// on demand.
    pub open spec fn first_released(self, n: int) -> Sim
        decreases n,
    {
        if n <= 0 {
            self
        } else {
            let s = self.first_released(n - 1);
            if self.tasks[n - 1].release_period() is Some {
                s.released(TaskId((n - 1) as u32), self.now, None)
            } else {
                s
            }
        }
    }

    /// The next job of a task that arrives periodically, one period from now,
    /// where that is before the end.
    pub open spec fn next_released(self, task_id: TaskId) -> Sim {
        match self.tasks[task_id.0 as int].release_period() {
            Some(period) => {
                let time = arith::sat_add(self.now, period);
                if period > 0 && time < self.duration {
                    self.released(task_id, time, None)
                } else {
                    self
                }
            },
            None => self,
        }
    }

    /// The DAG node that a proxy task of an instance runs.
    pub open spec fn provenance(self, instance: DagInstanceId, task_id: TaskId) -> Option<
        DagProvenance,
    > {
        if instance.0 < self.dags.len() {
            match self.dags[instance.0 as int].node_of(task_id) {
                Some(node) => Some(DagProvenance { dag_instance_id: instance, node }),
                None => None,
            }
        } else {
            None
        }
    }

    /// The jobs of DAG nodes, which arrive now.
    pub open spec fn nodes_released(self, tasks: Seq<TaskId>, instance: DagInstanceId) -> Sim
        decreases tasks.len(),
    {
        if tasks.len() == 0 {
            self
        } else {
            let s = self.nodes_released(tasks.drop_last(), instance);
            let task_id = tasks.last();
            if task_id.0 < self.tasks.len() {
                s.released(task_id, self.now, self.provenance(instance, task_id))
            } else {
                s
            }
        }
    }

    /// The data on a DAG edge has arrived: what it releases arrives now.
    pub open spec fn edge_satisfied(self, edge: EdgeTransferId) -> Sim {
        if edge.dag_instance_id.0 < self.dags.len() {
            let i = edge.dag_instance_id.0 as int;
            let (state, tasks) = self.dags[i].marked(edge.from_node, edge.to_node);
            Sim { dags: self.dags.update(i, state), ..self }.nodes_released(
                tasks,
                edge.dag_instance_id,
            )
        } else {
            self
        }
    }

    /// Where the data for a successor goes: it stays where the successor can
    /// run there, else it goes to the first device of a type that can.
    pub open spec fn successor_device(self, task_id: TaskId, d: DeviceId) -> DeviceId {
        let types = self.tasks[task_id.0 as int].affinity@;
        if types.contains(self.devices[d.0 as int].device_type) {
            d
        } else {
            match search::first_where(self.devices, is_of(types)) {
                Some(i) => DeviceId(i as u32),
                None => d,
            }
        }
    }

    /// A node that a job ran on a device hands data to a successor.
    pub open spec fn handed_on(
        self,
        id: JobId,
        d: DeviceId,
        provenance: DagProvenance,
        to_node: SubTaskIdx,
        bytes: u64,
    ) -> Sim {
        let edge = EdgeTransferId {
            dag_instance_id: provenance.dag_instance_id,
            from_node: provenance.node,
            to_node,
        };
        let target = match self.dags[provenance.dag_instance_id.0 as int].task_of(to_node) {
            Some(task_id) => if task_id.0 < self.tasks.len() {
                self.successor_device(task_id, d)
            } else {
                d
            },
            None => d,
        };
        if target == d {
            self.edge_satisfied(edge)
        } else {
            let job = self.job(id)->0;
            let request = TransferRequest {
                id: TransferId::Edge(edge),
                owner_job_id: id,
                from: d,
                to: target,
                data_size: bytes,
                reason: TransferReason::Edge,
                priority: job.effective_priority,
                expected_version: job.version,
            };
            let (transfers, list) = self.transfers.requested(self.links, request, self.now);
            Sim { transfers, ..self }.scheduled_all(list)
        }
    }

    /// A node hands data to successors, one after the other.
    pub open spec fn all_handed_on(
        self,
        id: JobId,
        d: DeviceId,
        provenance: DagProvenance,
        list: Seq<(SubTaskIdx, u64)>,
    ) -> Sim
        decreases list.len(),
    {
        if list.len() == 0 {
            self
        } else {
            self.all_handed_on(id, d, provenance, list.drop_last()).handed_on(
                id,
                d,
                provenance,
                list.last().0,
                list.last().1,
            )
        }
    }

    /// A completed job of a DAG node hands data to all successors.
    pub open spec fn succeeded(self, id: JobId, d: DeviceId) -> Sim {
        match self.job(id)->0.dag_provenance {
            Some(p) => if p.dag_instance_id.0 < self.dags.len() {
                let list = dag_tracker::outgoing(
                    self.dags[p.dag_instance_id.0 as int].bytes,
                    p.node,
                );
                self.all_handed_on(id, d, p, list)
            } else {
                self
            },
            None => self,
        }
    }

    /// An event-triggered reevaluation is due, unless the last one is too
    /// recent.
    pub open spec fn reevaluation_due(self) -> Sim {
        let min = match self.policy {
            ReevaluationPolicy::EventTriggered { min_interval_ns } => Some(min_interval_ns),
            ReevaluationPolicy::Hybrid { min_interval_ns, .. } => Some(min_interval_ns),
            _ => None,
        };
        let rested = match (min, self.last_reevaluation) {
            (Some(ns), Some(last)) => self.now >= arith::sat_add(last, ns),
            (Some(_), None) => true,
            (None, _) => false,
        };
        if rested {
            Sim { last_reevaluation: Some(self.now), ..self }.scheduled(
                self.now,
                EventKind::SchedulerReevaluation {
                    generation: self.generation,
                    trigger: ReevaluationTrigger::EventTriggered,
                },
            )
        } else {
            self
        }
    }

    /// The interval of periodic reevaluation.
    pub open spec fn reevaluation_interval(self) -> Option<Nanos> {
        match self.policy {
            ReevaluationPolicy::Periodic { interval_ns } => Some(interval_ns),
            ReevaluationPolicy::Hybrid { interval_ns, .. } => Some(interval_ns),
            _ => None,
        }
    }

    /// The next periodic reevaluation is pending.
    pub open spec fn reevaluation_pending(self) -> Sim {
        match self.reevaluation_interval() {
            Some(interval) => if interval > 0 {
                self.scheduled(
                    arith::sat_add(self.now, interval),
                    EventKind::SchedulerReevaluation {
                        generation: self.generation,
                        trigger: ReevaluationTrigger::Periodic,
                    },
                )
            } else {
                self
            },
            None => self,
        }
    }

    /// A job arrives and is counted, its task's next one is pending, and the
    /// scheduler is to answer. A job that is no longer new is left alone.
    pub open spec fn arriving(self, id: JobId) -> Sim {
        Sim {
            tally: Tally { total: arith::sat_add(self.tally.total, 1), ..self.tally },
            ..self
        }.next_released(self.job(id)->0.task_id)
    }

    /// Whether an arrival is one of a new job.
    pub open spec fn arrives(self, id: JobId) -> bool {
        self.known(id) && self.job(id)->0.state is Released
    }

    /// A job completes on a device; it is recorded and its successors get its
    /// data.
    pub open spec fn completing(self, id: JobId, d: DeviceId) -> Sim {
        let stopped = self.paused(id, d);
        let job = stopped.job(id)->0;
        let done = Job {
            executed_ns: match job.actual_exec_ns {
                Some(ns) => ns,
                None => job.executed_ns,
            },
            ..moved(job, JobState::Completed)
        };
        let record = CompletionRecord {
            job_id: id,
            task_id: job.task_id,
            release_time: job.release_time,
            completion_time: self.now,
        };
        Sim {
            tally: Tally {
                completed: arith::sat_add(self.tally.completed, 1),
                completions: self.tally.completions.push(record),
                ..self.tally
            },
            ..stopped.with_job(id, done)
        }.succeeded(id, d)
    }

    /// The data of a job has arrived on a device: the job starts, or waits
    /// while the device is busy.
    pub open spec fn landed(self, id: JobId, d: DeviceId) -> Sim {
        if self.known(id) && self.has_device(d) && (self.job(id)->0.state is Transferring
            || self.job(id)->0.state is Migrating) && self.job(id)->0.assigned_device == Some(d)
            && self.executable(id, d) {
            if self.running[d.0 as int] is None {
                self.started(id, d, 0)
            } else {
                self.enqueued(id, d)
            }
        } else {
            self
        }
    }

    /// The transfer of a job's data is over.
    pub open spec fn transferred(self, id: JobId, d: DeviceId) -> Sim {
        let (transfers, list) = self.transfers.completed(
            self.links,
            self.buses,
            TransferId::Job(id),
            self.now,
        );
        Sim { transfers, ..self }.scheduled_all(list).landed(id, d)
    }

    /// The transfer of the data on a DAG edge is over.
    pub open spec fn edge_transferred(self, edge: EdgeTransferId) -> Sim {
        let (transfers, list) = self.transfers.completed(
            self.links,
            self.buses,
            TransferId::Edge(edge),
            self.now,
        );
        Sim { transfers, ..self }.scheduled_all(list).edge_satisfied(edge)
    }

    /// A bus serves the next transfer if it is idle.
    pub open spec fn arbitrated(self, bus: crate::ids::BusId) -> Sim {
        if self.transfers.busy(bus) {
            self
        } else {
            let (transfers, list) = self.transfers.next_served(
                self.links,
                self.buses,
                bus,
                self.now,
            );
            Sim { transfers, ..self }.scheduled_all(list)
        }
    }

    /// A deadline was missed: it is recorded and the job ends.
    pub open spec fn missing(self, id: JobId) -> Sim {
        let record = MissRecord {
            job_id: id,
            task_id: self.job(id)->0.task_id,
            miss_time: self.now,
        };
        Sim {
            tally: Tally {
                missed: arith::sat_add(self.tally.missed, 1),
                misses: self.tally.misses.push(record),
                ..self.tally
            },
            ..self
        }.ended(id, JobState::DeadlineMissed)
    }

    /// Whether a job is active and of low criticality.
    pub open spec fn is_active_lo(self, id: JobId) -> bool {
        self.known(id) && self.job(id)->0.state.active() && self.task_of(id).criticality is Lo
    }

    /// The active low-criticality jobs among the first `n` are dropped.
    pub open spec fn lo_dropped(self, n: int) -> Sim
        decreases n,
    {
        if n <= 0 {
            self
        } else {
            let s = self.lo_dropped(n - 1);
            let id = JobId((n - 1) as u64);
            if s.is_active_lo(id) {
                s.dropped(id)
            } else {
                s
            }
        }
    }

    /// The scheduler answers for every idle device among the first `n`.
    pub open spec fn polled(self, answers: Seq<Seq<Action>>, n: int) -> Sim
        decreases n,
    {
        if n <= 0 {
            self
        } else {
            let s = self.polled(answers, n - 1);
            if s.running[n - 1] is None {
                s.applied_all(answer(answers, n), None)
            } else {
                s
            }
        }
    }

    /// The criticality level rises: the scheduler answers, active
    /// low-criticality jobs are dropped, and the scheduler answers for every
    /// device that is idle then.
    pub open spec fn switched(self, answers: Seq<Seq<Action>>) -> Sim {
        let s = Sim { level: CriticalityLevel::Hi, ..self }.applied_all(
            answer(answers, 0),
            None,
        );
        s.lo_dropped(s.jobs.len() as int).polled(answers, self.devices.len() as int)
    }

    /// A preemption point after the scheduler answered: while the job is still
    /// running, the next point is pending.
    pub open spec fn next_point(self, id: JobId, d: DeviceId, version: u64) -> Sim {
        let model = VirtualDeviceModel::of(self.devices[d.0 as int].preemption);
        match model.point_interval() {
            Some(interval) => if interval > 0 && self.device_of(id) == Some(d) && self.job(
                id,
            )->0.version == version {
                self.scheduled(
                    arith::sat_add(self.now, interval),
                    EventKind::PreemptionPoint {
                        device_id: d,
                        job_id: id,
                        expected_version: version,
                    },
                )
            } else {
                self
            },
            None => self,
        }
    }

    /// What an event makes of the state, given the scheduler's answers.
    #[verifier::opaque]
    pub open spec fn handled(self, kind: EventKind, answers: Seq<Seq<Action>>) -> Sim {
        match kind {
            EventKind::TaskArrival { job_id, .. } => if self.arrives(job_id) {
                self.arriving(job_id).applied_all(answer(answers, 0), None).reevaluation_due()
            } else {
                self
            },
            EventKind::JobComplete { job_id, device_id, .. } => if self.device_of(job_id)
                == Some(device_id) {
                self.completing(job_id, device_id).applied_all(
                    answer(answers, 0),
                    None,
                ).reevaluation_due()
            } else {
                self
            },
            EventKind::PreemptionPoint { device_id, job_id, expected_version } => if self.device_of(
                job_id,
            ) == Some(device_id) {
                self.applied_all(answer(answers, 0), Some(device_id)).next_point(
                    job_id,
                    device_id,
                    expected_version,
                )
            } else {
                self
            },
            EventKind::TransferComplete { job_id, device_id, .. } => self.transferred(
                job_id,
                device_id,
            ),
            EventKind::EdgeTransferComplete { edge_id, .. } => self.edge_transferred(edge_id),
            EventKind::BusArbitration { bus_id } => self.arbitrated(bus_id),
            EventKind::DeadlineCheck { job_id, .. } => match self.job(job_id) {
                Some(job) => if job.missed_at(self.now) {
                    let s = self.missing(job_id);
                    match self.device_of(job_id) {
                        Some(_) => s.applied_all(answer(answers, 0), None),
                        None => s,
                    }
                } else {
                    self
                },
                None => self,
            },
            EventKind::BudgetOverrun { job_id, .. } => if self.level is Lo && self.job(job_id)
                is Some {
                self.switched(answers)
            } else {
                self
            },
            EventKind::SchedulerReevaluation { generation, trigger } => if generation
                == self.generation {
                let s = self.applied_all(answer(answers, 0), None);
                match trigger {
                    ReevaluationTrigger::Periodic => s.reevaluation_pending(),
                    ReevaluationTrigger::EventTriggered => s,
                }
            } else {
                self
            },
            EventKind::SimulationEnd => self,
        }
    }

    /// Whether an event was meant for an earlier state of its job.
    pub open spec fn is_stale(self, kind: EventKind) -> bool {
        kind.target() matches Some((id, _)) && self.job(id) matches Some(job) && kind.stale_at(
            job.version,
        )
    }

    /// An event comes up: the clock moves to its time, and unless it is stale
    /// it is counted and handled.
    pub open spec fn attended(self, event: Event, answers: Seq<Seq<Action>>) -> Sim {
        let s = Sim { now: event.time, ..self };
        if s.is_stale(event.kind) {
            s
        } else {
            Sim { processed: arith::sat_add(s.processed, 1), ..s }.handled(event.kind, answers)
        }
    }

    /// A pending event is taken and attended to.
    pub open spec fn processed_event(self, event: Event, answers: Seq<Seq<Action>>) -> Sim {
        Sim { events: self.events.remove(event), ..self }.attended(event, answers)
    }

    /// Whether an event is the next one to come up.
    pub open spec fn is_next(self, event: Event) -> bool {
        &&& self.events.count(event) > 0
        &&& forall|e: Event| #[trigger] self.events.count(e) > 0 ==> !e.before(event)
    }

    /// When a run that begins now ends.
    pub open spec fn end(self) -> Nanos {
        if self.now > self.duration {
            self.now
        } else {
            self.duration
        }
    }

    /// A run begins: its end is pending, and so is the first periodic
    /// reevaluation.
    pub open spec fn begun(self, policy: ReevaluationPolicy) -> Sim {
        Sim {
            policy,
            generation: arith::sat_add(self.generation, 1),
            last_reevaluation: None,
            ..self
        }.scheduled(self.end(), EventKind::SimulationEnd).reevaluation_pending()
    }
}

/// The number of nodes of DAGs.
pub open spec fn node_count(dags: Seq<DagTask>) -> nat
    decreases dags.len(),
{
    if dags.len() == 0 {
        0
    } else {
        node_count(dags.drop_last()) + dags.last().nodes@.len()
    }
}

/// Whether a state follows from another one by the registration of a DAG: the
/// proxies of its nodes are new tasks, and the jobs of nodes that depend on
/// nothing arrive now.
pub open spec fn registers_one(before: Sim, dag: DagTask, after: Sim) -> bool {
    let base = before.tasks.len();
    let state = dag_tracker::registered(dag, base);
    let instance = DagInstanceId(before.dags.len() as u64);
    &&& after.tasks.len() == base + dag.nodes@.len()
    &&& after.tasks.take(base as int) == before.tasks
    &&& forall|i: int|
        0 <= i < dag.nodes@.len() ==> dag_tracker::is_proxy(
            #[trigger] after.tasks[base + i],
            dag,
            dag.nodes@[i],
            TaskId((base + i) as u32),
            instance,
        )
    &&& after == Sim {
        tasks: after.tasks,
        dags: before.dags.push(state),
        ..before
    }.nodes_released(state.ready(dag.nodes@.len() as int), instance)
}

/// Whether a state follows from another one by the registration of DAGs, one
/// after the other.
pub open spec fn registers(before: Sim, dags: Seq<DagTask>, after: Sim) -> bool
    decreases dags.len(),
{
    if dags.len() == 0 {
        after == before
    } else {
        exists|mid: Sim|
            registers(before, dags.drop_last(), mid) && #[trigger] registers_one(
                mid,
                dags.last(),
                after,
            )
    }
}

/// Some of the DAGs have no more nodes than all of them.
pub proof fn lemma_node_count(dags: Seq<DagTask>, n: int)
    requires
        0 <= n <= dags.len(),
    ensures
        node_count(dags.take(n)) <= node_count(dags),
    decreases dags.len() - n,
{
    if n == dags.len() {
        assert(dags.take(n) =~= dags);
    } else {
        assert(dags.take(n + 1).drop_last() =~= dags.take(n));
        lemma_node_count(dags, n + 1);
    }
}

/// A simulation at time zero, with idle devices and nothing pending.
pub open spec fn initial(
    duration: Nanos,
    devices: Seq<DeviceConfig>,
    links: Seq<InterconnectConfig>,
    buses: Seq<SharedBusConfig>,
) -> Sim {
    Sim {
        duration,
        now: 0,
        seq: 0,
        events: Multiset::empty(),
        jobs: Seq::empty(),
        tasks: Seq::empty(),
        level: CriticalityLevel::Lo,
        devices,
        running: Seq::new(devices.len(), |i: int| None),
        queues: Seq::new(devices.len(), |i: int| Seq::empty()),
        busy: Seq::new(devices.len(), |i: int| 0),
        links,
        buses,
        transfers: Transfers {
            active: Seq::empty(),
            pending: Seq::empty(),
            stats: TransferStats::zero(),
        },
        dags: Seq::empty(),
        tally: Tally {
            total: 0,
            completed: 0,
            missed: 0,
            completions: Seq::empty(),
            misses: Seq::empty(),
        },
        processed: 0,
        preemptions: 0,
        migrations: 0,
        policy: ReevaluationPolicy::Disabled,
        generation: 0,
        last_reevaluation: None,
    }
}

/// Whether a state follows from another one by processing its next event, for
/// some answers of the scheduler.
pub open spec fn steps(before: Sim, event: Event, after: Sim) -> bool {
    &&& before.is_next(event)
    &&& exists|answers: Seq<Seq<Action>>| after == #[trigger] before.processed_event(
        event,
        answers,
    )
}

/// Whether states and events are a run: each state follows from the one before
/// it by its event, only the last event may be the end of the simulation, and
/// the run goes on until that event or until nothing is pending.
pub open spec fn is_run(first: Sim, events: Seq<Event>, states: Seq<Sim>) -> bool {
    &&& states.len() == events.len() + 1
    &&& states[0] == first
    &&& forall|i: int|
        0 <= i < events.len() ==> steps(states[i], #[trigger] events[i], states[i + 1])
    &&& forall|i: int|
        0 <= i < events.len() - 1 ==> !((#[trigger] events[i]).kind is SimulationEnd)
    &&& states.last().events.len() == 0 || (events.len() > 0
        && events.last().kind is SimulationEnd)
}

/// The release of a job keeps the jobs there are.
pub proof fn lemma_released_keeps(s: Sim, tasks: Seq<TaskId>, instance: DagInstanceId)
    ensures
        ({
            let t = s.nodes_released(tasks, instance);
            &&& t.devices == s.devices
            &&& t.dags == s.dags
            &&& t.tasks == s.tasks
            &&& t.now == s.now
            &&& t.jobs.len() >= s.jobs.len()
            &&& t.jobs.take(s.jobs.len() as int) == s.jobs
        }),
    decreases tasks.len(),
{
    if tasks.len() > 0 {
        lemma_released_keeps(s, tasks.drop_last(), instance);
        let m = s.nodes_released(tasks.drop_last(), instance);
        let t = s.nodes_released(tasks, instance);
        assert(t.jobs.take(m.jobs.len() as int) =~= m.jobs);
        assert(t.jobs.take(s.jobs.len() as int) =~= m.jobs.take(s.jobs.len() as int));
    } else {
        assert(s.jobs.take(s.jobs.len() as int) =~= s.jobs);
    }
}

/// Handing data on keeps the jobs, devices and DAGs there are.
pub proof fn lemma_handed_on_all(
    s: Sim,
    id: JobId,
    d: DeviceId,
    provenance: DagProvenance,
    list: Seq<(SubTaskIdx, u64)>,
)
    ensures
        ({
            let t = s.all_handed_on(id, d, provenance, list);
            &&& t.devices == s.devices
            &&& t.dags.len() == s.dags.len()
            &&& t.jobs.len() >= s.jobs.len()
            &&& t.jobs.take(s.jobs.len() as int) == s.jobs
            &&& s.job(id) is Some ==> t.job(id) == s.job(id)
        }),
    decreases list.len(),
{
    let t = s.all_handed_on(id, d, provenance, list);
    if list.len() > 0 {
        lemma_handed_on_all(s, id, d, provenance, list.drop_last());
        let m = s.all_handed_on(id, d, provenance, list.drop_last());
        lemma_handed_on(m, id, d, provenance, list.last().0, list.last().1);
        assert(t.jobs.take(s.jobs.len() as int) =~= t.jobs.take(m.jobs.len() as int).take(
            s.jobs.len() as int,
        ));
    } else {
        assert(s.jobs.take(s.jobs.len() as int) =~= s.jobs);
    }
    if s.job(id) is Some {
        assert(t.jobs.take(s.jobs.len() as int)[id.0 as int] == t.jobs[id.0 as int]);
    }
}

/// Handing data on once keeps the jobs, devices and DAGs there are.
pub proof fn lemma_handed_on(
    s: Sim,
    id: JobId,
    d: DeviceId,
    provenance: DagProvenance,
    to_node: SubTaskIdx,
    bytes: u64,
)
    ensures
        ({
            let t = s.handed_on(id, d, provenance, to_node, bytes);
            &&& t.devices == s.devices
            &&& t.dags.len() == s.dags.len()
            &&& t.jobs.len() >= s.jobs.len()
            &&& t.jobs.take(s.jobs.len() as int) == s.jobs
        }),
{
    let t = s.handed_on(id, d, provenance, to_node, bytes);
    assert(s.jobs.take(s.jobs.len() as int) =~= s.jobs);
    let edge = EdgeTransferId {
        dag_instance_id: provenance.dag_instance_id,
        from_node: provenance.node,
        to_node,
    };
    if edge.dag_instance_id.0 < s.dags.len() {
        let i = edge.dag_instance_id.0 as int;
        let (state, tasks) = s.dags[i].marked(edge.from_node, edge.to_node);
        lemma_released_keeps(
            Sim { dags: s.dags.update(i, state), ..s },
            tasks,
            edge.dag_instance_id,
        );
    }
    assert forall|u: Sim, list: Seq<ScheduledEvent>|
        (#[trigger] u.scheduled_all(list)).jobs == u.jobs && u.scheduled_all(list).devices
            == u.devices && u.scheduled_all(list).dags == u.dags by {
        lemma_scheduled_all(u, list);
    }
}

/// Scheduling events changes nothing else.
pub proof fn lemma_scheduled_all(s: Sim, list: Seq<ScheduledEvent>)
    ensures
        ({
            let t = s.scheduled_all(list);
            t == Sim { seq: t.seq, events: t.events, ..s }
        }),
    decreases list.len(),
{
    if list.len() > 0 {
        lemma_scheduled_all(s, list.drop_last());
    }
}

/// Answers for later devices do not matter to earlier ones.
pub proof fn lemma_polled(s: Sim, answers: Seq<Seq<Action>>, more: Seq<Seq<Action>>, n: int)
    requires
        n < answers.len() <= more.len(),
        more.take(answers.len() as int) == answers,
    ensures
        s.polled(answers, n) == s.polled(more, n),
    decreases n,
{
    if n > 0 {
        lemma_polled(s, answers, more, n - 1);
        assert(more.take(answers.len() as int)[n] == more[n]);
    }
}

} // verus!

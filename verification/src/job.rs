//! Job runtime state and state machine.
//!
//! A job is a single instance (release) of a task. It tracks execution
//! progress and state transitions, and carries a version number by which
//! events for an earlier state are told apart.

use crate::dag::DagProvenance;
use crate::ids::{DeviceId, JobId, TaskId};
use crate::time::Nanos;
use vstd::prelude::*;

verus! {

/// Job state machine:
/// ```text
/// Released -> Ready -> Transferring -> Running -> Completed
///                   ^                v         ^
///             Suspended <--------- (preempt)
///                   v
///               Migrating -> Ready (on new device)
///
/// Any state -> Dropped (mode switch, low-criticality task)
/// Any state with deadline miss -> DeadlineMissed
/// ```
#[derive(Debug, Clone, Copy, PartialEq, Eq, Structural)]
pub enum JobState {
    /// Just released, not yet in any device queue.
    Released,
    /// In a device's ready queue, waiting to execute.
    Ready,
    /// Data being transferred to the target device.
    Transferring,
    /// Currently executing on a device.
    Running,
    /// Preempted, waiting to resume.
    Suspended,
    /// Being migrated between devices (preempt, transfer, dispatch).
    Migrating,
    /// Execution completed successfully.
    Completed,
    /// Dropped during a mixed-criticality mode switch.
    Dropped,
    /// Missed its deadline.
    DeadlineMissed,
}

impl JobState {
    /// Whether no further transition follows.
    pub open spec fn terminal(self) -> bool {
        self is Completed || self is Dropped || self is DeadlineMissed
    }

    /// Whether the job has arrived and is not done.
    pub open spec fn active(self) -> bool {
        self is Ready || self is Transferring || self is Running || self is Suspended
            || self is Migrating
    }

    /// Tells a final state.
    pub fn is_terminal(&self) -> (yes: bool)
        ensures
            yes == self.terminal(),
    {
        match self {
            JobState::Completed | JobState::Dropped | JobState::DeadlineMissed => true,
            _ => false,
        }
    }

    /// Tells a state between arrival and the end.
    pub fn is_active(&self) -> (yes: bool)
        ensures
            yes == self.active(),
    {
        match self {
            JobState::Ready | JobState::Transferring | JobState::Running | JobState::Suspended
            | JobState::Migrating => true,
            _ => false,
        }
    }
}

/// A state is released, active or terminal, and only one of these.
pub proof fn law_job_states_partition(s: JobState)
    ensures
        s is Released || s.active() || s.terminal(),
        !(s.active() && s.terminal()),
        s is Released ==> !s.active() && !s.terminal(),
{
}

/// Runtime job instance.
#[derive(Debug, Clone, Copy, PartialEq, Eq, Structural)]
pub struct Job {
    pub id: JobId,
    pub task_id: TaskId,
    pub state: JobState,
    /// Incremented on every state change. Events carry the version they were
    /// meant for.
    pub version: u64,
    /// Absolute release time.
    pub release_time: Nanos,
    /// Absolute deadline.
    pub absolute_deadline: Nanos,
    /// Execution time of this instance, `None` until a device is known.
    /// Hidden from the scheduler.
    pub actual_exec_ns: Option<Nanos>,
    /// DAG node this job was released for.
    pub dag_provenance: Option<DagProvenance>,
    /// How much execution time has been consumed so far.
    pub executed_ns: Nanos,
    /// Which device this job is on (`None` if not yet placed).
    pub assigned_device: Option<DeviceId>,
    /// Time when execution started on the current device.
    pub exec_start_time: Option<Nanos>,
    /// Priority (lower number is more urgent).
    pub effective_priority: u32,
}

impl Job {
    /// A job that has just been released.
    pub open spec fn fresh(
        id: JobId,
        task_id: TaskId,
        release_time: Nanos,
        absolute_deadline: Nanos,
        actual_exec_ns: Option<Nanos>,
        priority: u32,
    ) -> Job {
        Job {
            id,
            task_id,
            state: JobState::Released,
            version: 0,
            release_time,
            absolute_deadline,
            actual_exec_ns,
            dag_provenance: None,
            executed_ns: 0,
            assigned_device: None,
            exec_start_time: None,
            effective_priority: priority,
        }
    }

    /// Execution time that is left; nothing where none is known.
    pub open spec fn remaining(self) -> Nanos {
        match self.actual_exec_ns {
            Some(total) => crate::arith::sat_sub(total, self.executed_ns),
            None => 0,
        }
    }

    /// Whether the deadline has passed before the job came to an end.
    pub open spec fn missed_at(self, now: Nanos) -> bool {
        now > self.absolute_deadline && !self.state.terminal()
    }

    /// Creates a released job.
    pub fn new(
        id: JobId,
        task_id: TaskId,
        release_time: Nanos,
        absolute_deadline: Nanos,
        actual_exec_ns: Option<Nanos>,
        priority: u32,
    ) -> (job: Self)
        ensures
            job == Job::fresh(
                id,
                task_id,
                release_time,
                absolute_deadline,
                actual_exec_ns,
                priority,
            ),
    {
        Job {
            id,
            task_id,
            state: JobState::Released,
            version: 0,
            release_time,
            absolute_deadline,
            actual_exec_ns,
            dag_provenance: None,
            executed_ns: 0,
            assigned_device: None,
            exec_start_time: None,
            effective_priority: priority,
        }
    }

    /// Remaining execution time (only the engine should use this).
    pub fn remaining_ns(&self) -> (ns: Nanos)
        ensures
            ns == self.remaining(),
    {
        match self.actual_exec_ns {
            Some(total) => total.saturating_sub(self.executed_ns),
            None => 0,
        }
    }

    /// Transitions to a new state, incrementing the version counter.
    pub fn transition(&mut self, new_state: JobState)
        requires
            old(self).version < u64::MAX,
        ensures
            *final(self) == (Job {
                state: new_state,
                version: (old(self).version + 1) as u64,
                ..*old(self)
            }),
    {
        self.state = new_state;
        self.version = self.version + 1;
    }

    /// Records execution progress: adds elapsed time since the last checkpoint.
    pub fn record_progress(&mut self, elapsed_ns: Nanos)
        requires
            old(self).executed_ns + elapsed_ns <= u64::MAX,
        ensures
            *final(self) == (Job {
                executed_ns: (old(self).executed_ns + elapsed_ns) as u64,
                ..*old(self)
            }),
    {
        self.executed_ns = self.executed_ns + elapsed_ns;
    }

    /// Checks whether this job has missed its deadline at the given time.
    pub fn has_missed_deadline(&self, now: Nanos) -> (missed: bool)
        ensures
            missed == self.missed_at(now),
    {
        now > self.absolute_deadline && !self.state.is_terminal()
    }
}

/// The time left of a job is what it has not executed of its execution time;
/// its deadline is missed once it has passed before the job came to an end.
pub proof fn law_jobs_run_down(job: Job, now: Nanos)
    ensures
        job.actual_exec_ns matches Some(total) ==> (total >= job.executed_ns ==> job.remaining()
            == total - job.executed_ns) && (total < job.executed_ns ==> job.remaining() == 0),
        job.actual_exec_ns is None ==> job.remaining() == 0,
        job.missed_at(now) <==> now > job.absolute_deadline && job.state != JobState::Completed
            && job.state != JobState::Dropped && job.state != JobState::DeadlineMissed,
{
}

} // verus!

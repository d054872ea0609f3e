//! Events with version-based invalidation.
//!
//! Events are ordered by (time, sequence number), earliest first. An event for
//! a job carries the job version it was meant for: when the job has moved on,
//! the event is stale and dropped when it comes up.

use crate::dag::EdgeTransferId;
use crate::ids::{BusId, DeviceId, JobId, TaskId};
use crate::scheduler::ReevaluationTrigger;
use crate::time::Nanos;
use std::cmp::Ordering;
use vstd::prelude::*;

verus! {

/// Simulation event.
#[derive(Debug, Clone, Copy)]
pub struct Event {
    /// When this event fires (nanosecond timestamp).
    pub time: Nanos,
    /// Tie-breaking sequence number (lower is earlier).
    pub seq: u64,
    /// Event payload.
    pub kind: EventKind,
}

impl Event {
    /// Whether this event fires before another one.
    pub open spec fn before(self, other: Event) -> bool {
        self.time < other.time || (self.time == other.time && self.seq < other.seq)
    }

    /// Whether this event fires before another one.
    pub fn fires_before(&self, other: &Event) -> (yes: bool)
        ensures
            yes == self.before(*other),
    {
        self.time < other.time || (self.time == other.time && self.seq < other.seq)
    }
}

impl vstd::std_specs::cmp::PartialEqSpecImpl for Event {
    open spec fn obeys_eq_spec() -> bool {
        true
    }

    open spec fn eq_spec(&self, other: &Event) -> bool {
        self.time == other.time && self.seq == other.seq
    }
}

impl PartialEq for Event {
    fn eq(&self, other: &Event) -> (equal: bool) {
        self.time == other.time && self.seq == other.seq
    }
}

impl Eq for Event {

}

impl vstd::std_specs::cmp::PartialOrdSpecImpl for Event {
    open spec fn obeys_partial_cmp_spec() -> bool {
        true
    }

    open spec fn partial_cmp_spec(&self, other: &Event) -> Option<Ordering> {
        if self.before(*other) {
            Some(Ordering::Greater)
        } else if other.before(*self) {
            Some(Ordering::Less)
        } else {
            Some(Ordering::Equal)
        }
    }
}

/// The earlier event is the greater one, so that a max-heap yields it first.
impl PartialOrd for Event {
    fn partial_cmp(&self, other: &Event) -> (order: Option<Ordering>) {
        if self.fires_before(other) {
            Some(Ordering::Greater)
        } else if other.fires_before(self) {
            Some(Ordering::Less)
        } else {
            Some(Ordering::Equal)
        }
    }
}

/// Event payload variants.
#[derive(Debug, Clone, Copy, PartialEq, Eq, Structural)]
pub enum EventKind {
    /// A task releases a new job.
    TaskArrival { task_id: TaskId, job_id: JobId },
    /// A job completes execution on a device.
    JobComplete { job_id: JobId, expected_version: u64, device_id: DeviceId },
    /// A preemption check point is reached (GPU kernel boundary, DSP DMA end).
    PreemptionPoint { device_id: DeviceId, job_id: JobId, expected_version: u64 },
    /// Data transfer to a device completed.
    TransferComplete { job_id: JobId, expected_version: u64, device_id: DeviceId },
    /// DAG edge data transfer completed.
    EdgeTransferComplete {
        job_id: JobId,
        expected_version: u64,
        device_id: DeviceId,
        edge_id: EdgeTransferId,
    },
    /// Shared bus arbitration tick.
    BusArbitration { bus_id: BusId },
    /// Deadline check for a job.
    DeadlineCheck { job_id: JobId, expected_version: u64 },
    /// A job exceeded its low-criticality budget; triggers an atomic
    /// criticality switch.
    BudgetOverrun { job_id: JobId, expected_version: u64 },
    /// Scheduler reevaluation callback (periodic or event-triggered).
    SchedulerReevaluation { generation: u64, trigger: ReevaluationTrigger },
    /// End of simulation.
    SimulationEnd,
}

impl EventKind {
    /// The job and version that the event goes stale with, if it can.
    pub open spec fn target(self) -> Option<(JobId, u64)> {
        match self {
            EventKind::JobComplete { job_id, expected_version, .. } => Some(
                (job_id, expected_version),
            ),
            EventKind::PreemptionPoint { job_id, expected_version, .. } => Some(
                (job_id, expected_version),
            ),
            EventKind::TransferComplete { job_id, expected_version, .. } => Some(
                (job_id, expected_version),
            ),
            EventKind::EdgeTransferComplete { job_id, expected_version, .. } => Some(
                (job_id, expected_version),
            ),
            EventKind::BudgetOverrun { job_id, expected_version } => Some(
                (job_id, expected_version),
            ),
            _ => None,
        }
    }

    /// Whether the event is void for a job at `current_version`.
    pub open spec fn stale_at(self, current_version: u64) -> bool {
        match self.target() {
            Some((_, expected)) => expected != current_version,
            None => false,
        }
    }

    /// Checks if this event is stale given the current job version. A deadline
    /// check never is: the absolute deadline does not change with the state.
    pub fn is_stale(&self, current_version: u64) -> (stale: bool)
        ensures
            stale == self.stale_at(current_version),
    {
        match self {
            EventKind::JobComplete { expected_version, .. }
            | EventKind::PreemptionPoint { expected_version, .. }
            | EventKind::TransferComplete { expected_version, .. }
            | EventKind::EdgeTransferComplete { expected_version, .. }
            | EventKind::BudgetOverrun { expected_version, .. } => {
                *expected_version != current_version
            },
            EventKind::DeadlineCheck { .. } => false,
            EventKind::TaskArrival { .. }
            | EventKind::BusArbitration { .. }
            | EventKind::SchedulerReevaluation { .. }
            | EventKind::SimulationEnd => false,
        }
    }
}

/// Events are totally ordered by time and sequence number.
pub proof fn law_events_are_ordered(a: Event, b: Event, c: Event)
    ensures
        !a.before(a),
        a.before(b) && b.before(c) ==> a.before(c),
        a.seq != b.seq ==> a.before(b) || b.before(a),
        !(a.before(b) && b.before(a)),
{
}

/// An event fires before another one exactly where its time is earlier, or its
/// number is lower at the same time.
pub proof fn law_earlier_events_fire_first(a: Event, b: Event)
    ensures
        a.time < b.time ==> a.before(b) && !b.before(a),
        a.time == b.time && a.seq < b.seq ==> a.before(b) && !b.before(a),
        a.time == b.time && a.seq == b.seq ==> !a.before(b) && !b.before(a),
{
}

} // verus!

//! Task model definitions.
//!
//! Periodic, sporadic and aperiodic tasks with deterministic or stochastic
//! execution times, and DAG task structures.

use crate::ids::{ChainId, TaskId};
use crate::time::Nanos;
use vstd::prelude::*;

verus! {

/// How a task arrives (release pattern).
#[derive(Debug, Clone, Copy, PartialEq, Eq, Structural)]
pub enum ArrivalModel {
    /// Strictly periodic: released every `period` nanoseconds.
    Periodic { period: Nanos },
    /// Sporadic: minimum inter-arrival time, actual arrival may be later.
    Sporadic { min_inter_arrival: Nanos },
    /// Aperiodic: arrives at externally specified times (event-driven).
    Aperiodic,
}

/// How execution time is modeled.
#[derive(Debug)]
pub enum ExecutionTimeModel {
    /// Fixed WCET (classical real-time analysis).
    Deterministic { wcet: Nanos },
    /// Execution time drawn from a distribution at each job release.
    Stochastic {
        bcet: Nanos,
        wcet: Nanos,
        /// "uniform", "normal" or "lognormal".
        distribution: String,
    },
    /// Mixed-criticality: two WCET bounds.
    MixedCriticality { wcet_lo: Nanos, wcet_hi: Nanos },
}

impl Clone for ExecutionTimeModel {
    fn clone(&self) -> (copy: Self)
        ensures
            copy == *self,
    {
        match self {
            ExecutionTimeModel::Deterministic { wcet } => ExecutionTimeModel::Deterministic {
                wcet: *wcet,
            },
            ExecutionTimeModel::Stochastic {
                bcet,
                wcet,
                distribution,
            } => ExecutionTimeModel::Stochastic {
                bcet: *bcet,
                wcet: *wcet,
                distribution: distribution.clone(),
            },
            ExecutionTimeModel::MixedCriticality { wcet_lo, wcet_hi } => {
                ExecutionTimeModel::MixedCriticality { wcet_lo: *wcet_lo, wcet_hi: *wcet_hi }
            },
        }
    }
}

impl ExecutionTimeModel {
    /// The worst case of the model.
    pub open spec fn worst(&self) -> Nanos {
        match self {
            ExecutionTimeModel::Deterministic { wcet } => *wcet,
            ExecutionTimeModel::Stochastic { wcet, .. } => *wcet,
            ExecutionTimeModel::MixedCriticality { wcet_hi, .. } => *wcet_hi,
        }
    }

    /// The best case of the model.
    pub open spec fn best(&self) -> Nanos {
        match self {
            ExecutionTimeModel::Deterministic { wcet } => *wcet,
            ExecutionTimeModel::Stochastic { bcet, .. } => *bcet,
            ExecutionTimeModel::MixedCriticality { wcet_lo, .. } => *wcet_lo,
        }
    }

    /// Gets the worst-case value (used for schedulability analysis).
    pub fn wcet(&self) -> (ns: Nanos)
        ensures
            ns == self.worst(),
    {
        match self {
            ExecutionTimeModel::Deterministic { wcet } => *wcet,
            ExecutionTimeModel::Stochastic { wcet, .. } => *wcet,
            ExecutionTimeModel::MixedCriticality { wcet_hi, .. } => *wcet_hi,
        }
    }

    /// Gets the best-case value.
    pub fn bcet(&self) -> (ns: Nanos)
        ensures
            ns == self.best(),
    {
        match self {
            ExecutionTimeModel::Deterministic { wcet } => *wcet,
            ExecutionTimeModel::Stochastic { bcet, .. } => *bcet,
            ExecutionTimeModel::MixedCriticality { wcet_lo, .. } => *wcet_lo,
        }
    }
}

/// Mixed-criticality level.
#[derive(Debug, Clone, Copy, PartialEq, Eq, PartialOrd, Ord, Hash, Structural)]
pub enum CriticalityLevel {
    /// Low criticality (can be dropped during a mode switch).
    Lo,
    /// High criticality (must always meet deadlines).
    Hi,
}

/// Device type for affinity specification.
#[derive(Debug, Clone, Copy, PartialEq, Eq, Hash, Structural)]
pub enum DeviceType {
    Cpu,
    Gpu,
    Dsp,
    Fpga,
}

/// A list of execution-time models, one per device type.
pub type ExecTimes = Vec<(DeviceType, ExecutionTimeModel)>;

/// The position of the first model for device type `dt`, if there is one.
pub open spec fn model_index(times: Seq<(DeviceType, ExecutionTimeModel)>, dt: DeviceType) -> Option<
    int,
>
    decreases times.len(),
{
    if times.len() == 0 {
        None
    } else {
        match model_index(times.drop_last(), dt) {
            Some(i) => Some(i),
            None => if times.last().0 == dt {
                Some(times.len() - 1)
            } else {
                None
            },
        }
    }
}

/// Finds the position of the first model for a device type.
pub fn find_model(times: &ExecTimes, dt: DeviceType) -> (found: Option<usize>)
    ensures
        match found {
            Some(i) => i < times@.len() && model_index(times@, dt) == Some(i as int)
                && times@[i as int].0 == dt,
            None => model_index(times@, dt) is None,
        },
{
    let mut i: usize = 0;
    while i < times.len()
        invariant
            i <= times@.len(),
            model_index(times@.take(i as int), dt) is None,
        decreases times@.len() - i,
    {
        proof {
            assert(times@.take(i as int + 1).drop_last() =~= times@.take(i as int));
        }
        if times[i].0 == dt {
            proof {
                lemma_model_index_prefix(times@, dt, i as int + 1);
            }
            return Some(i);
        }
        i = i + 1;
    }
    proof {
        assert(times@.take(i as int) =~= times@);
    }
    None
}

/// A model found in a prefix is found in the whole.
proof fn lemma_model_index_prefix(
    times: Seq<(DeviceType, ExecutionTimeModel)>,
    dt: DeviceType,
    n: int,
)
    requires
        0 <= n <= times.len(),
        model_index(times.take(n), dt) is Some,
    ensures
        model_index(times, dt) == model_index(times.take(n), dt),
    decreases times.len() - n,
{
    if n == times.len() {
        assert(times.take(n) =~= times);
    } else {
        assert(times.take(n + 1).drop_last() =~= times.take(n));
        lemma_model_index_prefix(times, dt, n + 1);
    }
}

/// Copies a list of execution-time models.
pub fn clone_exec_times(times: &ExecTimes) -> (copy: ExecTimes)
    ensures
        copy@ == times@,
{
    let mut copy: ExecTimes = Vec::new();
    let mut i: usize = 0;
    while i < times.len()
        invariant
            i <= times@.len(),
            copy@ == times@.take(i as int),
        decreases times@.len() - i,
    {
        copy.push((times[i].0, times[i].1.clone()));
        proof {
            assert(copy@ =~= times@.take(i as int + 1));
        }
        i = i + 1;
    }
    proof {
        assert(times@.take(i as int) =~= times@);
    }
    copy
}

/// Copies a list of device types.
pub fn clone_affinity(types: &Vec<DeviceType>) -> (copy: Vec<DeviceType>)
    ensures
        copy@ == types@,
{
    let mut copy: Vec<DeviceType> = Vec::new();
    let mut i: usize = 0;
    while i < types.len()
        invariant
            i <= types@.len(),
            copy@ == types@.take(i as int),
        decreases types@.len() - i,
    {
        copy.push(types[i]);
        proof {
            assert(copy@ =~= types@.take(i as int + 1));
        }
        i = i + 1;
    }
    proof {
        assert(types@.take(i as int) =~= types@);
    }
    copy
}

/// A periodic or sporadic real-time task.
#[derive(Debug, Clone)]
pub struct Task {
    pub id: TaskId,
    pub name: String,
    pub priority: u32,
    pub arrival: ArrivalModel,
    /// Relative deadline (nanoseconds from release).
    pub deadline: Nanos,
    pub criticality: CriticalityLevel,
    /// Execution time model per device type.
    pub exec_times: ExecTimes,
    /// Device types that can execute the task.
    pub affinity: Vec<DeviceType>,
    /// Input data size in bytes (for transfer overhead).
    pub data_size: u64,
}

impl Task {
    /// The WCET on a device type, from the first model given for it.
    pub open spec fn worst_on(&self, device: DeviceType) -> Option<Nanos> {
        match model_index(self.exec_times@, device) {
            Some(i) => Some(self.exec_times@[i].1.worst()),
            None => None,
        }
    }

    /// The time between two releases, where the arrival model bounds it.
    pub open spec fn release_period(&self) -> Option<Nanos> {
        match self.arrival {
            ArrivalModel::Periodic { period } => Some(period),
            ArrivalModel::Sporadic { min_inter_arrival } => Some(min_inter_arrival),
            ArrivalModel::Aperiodic => None,
        }
    }

    /// Gets the WCET on a specific device type, if supported.
    pub fn wcet_on(&self, device: DeviceType) -> (wcet: Option<Nanos>)
        ensures
            wcet == self.worst_on(device),
    {
        match find_model(&self.exec_times, device) {
            Some(i) => Some(self.exec_times[i].1.wcet()),
            None => None,
        }
    }

    /// Gets the period (`None` for aperiodic tasks).
    pub fn period(&self) -> (period: Option<Nanos>)
        ensures
            period == self.release_period(),
    {
        match self.arrival {
            ArrivalModel::Periodic { period } => Some(period),
            ArrivalModel::Sporadic { min_inter_arrival } => Some(min_inter_arrival),
            ArrivalModel::Aperiodic => None,
        }
    }
}

/// A sub-task within a DAG.
#[derive(Debug, Clone)]
pub struct SubTask {
    pub index: usize,
    pub exec_times: ExecTimes,
    pub affinity: Vec<DeviceType>,
    /// Data dependency: (predecessor index, transfer size in bytes).
    pub data_deps: Vec<(usize, u64)>,
}

/// A DAG (Directed Acyclic Graph) task.
#[derive(Debug, Clone)]
pub struct DagTask {
    pub id: TaskId,
    pub name: String,
    pub arrival: ArrivalModel,
    /// End-to-end deadline for the entire DAG.
    pub deadline: Nanos,
    pub criticality: CriticalityLevel,
    pub nodes: Vec<SubTask>,
    /// Edges: (predecessor_index, successor_index).
    pub edges: Vec<(usize, usize)>,
}

/// End-to-end task chain (cause-effect chain).
#[derive(Debug, Clone)]
pub struct TaskChain {
    pub id: ChainId,
    pub name: String,
    /// Ordered task sequence: sensor, process, actuate.
    pub tasks: Vec<TaskId>,
    /// End-to-end deadline.
    pub e2e_deadline: Nanos,
    pub metric: E2EMetric,
}

/// Which end-to-end latency a chain is measured by.
#[derive(Debug, Clone, Copy, PartialEq, Eq, Structural)]
pub enum E2EMetric {
    ReactionTime,
    DataAge,
    Both,
}

/// A task takes on a device type what the first model for the type gives, and
/// is released again after its period or its least time between arrivals.
pub proof fn law_tasks_give_times_and_periods(task: &Task, dt: DeviceType, m: int)
    ensures
        0 <= m < task.exec_times@.len() && task.exec_times@[m].0 == dt && (forall|j: int|
            0 <= j < m ==> (#[trigger] task.exec_times@[j]).0 != dt) ==> task.worst_on(dt) == Some(
            match task.exec_times@[m].1 {
                ExecutionTimeModel::Deterministic { wcet } => wcet,
                ExecutionTimeModel::Stochastic { wcet, .. } => wcet,
                ExecutionTimeModel::MixedCriticality { wcet_hi, .. } => wcet_hi,
            },
        ),
        (forall|j: int|
            0 <= j < task.exec_times@.len() ==> (#[trigger] task.exec_times@[j]).0 != dt)
            ==> task.worst_on(dt) is None,
        task.arrival matches ArrivalModel::Periodic { period } ==> task.release_period() == Some(
            period,
        ),
        task.arrival matches ArrivalModel::Sporadic { min_inter_arrival } ==> task.release_period()
            == Some(min_inter_arrival),
        task.arrival is Aperiodic ==> task.release_period() is None,
{
    crate::schedulers::timetable::lemma_model(task.exec_times@, dt, m);
}

} // verus!

//! Device model types.
//!
//! Four preemption levels:
//! - CPU: fully preemptive
//! - GPU: limited preemptive (kernel or stream boundary)
//! - DSP: interrupt level (interrupts, but non-preemptive DMA)
//! - FPGA: non-preemptive (partial reconfiguration)

use crate::arith::Rate;
use crate::ids::{BusId, DeviceId};
use crate::task::DeviceType;
use crate::time::Nanos;
use vstd::prelude::*;

verus! {

/// Preemption model, the core heterogeneity axis.
#[derive(Debug, Clone, Copy, PartialEq, Eq, Structural)]
pub enum PreemptionModel {
    /// CPU: can preempt at any instruction boundary.
    FullyPreemptive,
    /// GPU: can only preempt at stream or kernel launch boundaries.
    LimitedPreemptive {
        /// Minimum non-preemptible segment duration.
        granularity_ns: Nanos,
    },
    /// DSP: interrupt-level preemption, but DMA regions are non-preemptible.
    InterruptLevel {
        isr_overhead_ns: Nanos,
        /// Duration of non-preemptible DMA regions.
        dma_non_preemptive_ns: Nanos,
    },
    /// FPGA: entire execution is non-preemptible; a task switch is a
    /// reconfiguration.
    NonPreemptive {
        /// Partial reconfiguration time.
        reconfig_time_ns: Nanos,
    },
}

impl PreemptionModel {
    /// Longest time a running job can hold off a higher-priority one.
    pub open spec fn blocking_bound(&self) -> Nanos {
        match self {
            PreemptionModel::FullyPreemptive => 0,
            PreemptionModel::LimitedPreemptive { granularity_ns } => *granularity_ns,
            PreemptionModel::InterruptLevel { dma_non_preemptive_ns, .. } => *dma_non_preemptive_ns,
            PreemptionModel::NonPreemptive { .. } => u64::MAX,
        }
    }

    /// Maximum blocking time this device can cause to a higher-priority task,
    /// the key parameter for response-time analysis. A non-preemptive device
    /// blocks until completion, which no bound covers.
    pub fn max_blocking(&self) -> (ns: Nanos)
        ensures
            ns == self.blocking_bound(),
    {
        match self {
            PreemptionModel::FullyPreemptive => 0,
            PreemptionModel::LimitedPreemptive { granularity_ns } => *granularity_ns,
            PreemptionModel::InterruptLevel { dma_non_preemptive_ns, .. } => *dma_non_preemptive_ns,
            PreemptionModel::NonPreemptive { .. } => u64::MAX,
        }
    }

    /// Whether this device supports any form of preemption.
    pub fn is_preemptible(&self) -> (yes: bool)
        ensures
            yes == !(self is NonPreemptive),
    {
        match self {
            PreemptionModel::NonPreemptive { .. } => false,
            _ => true,
        }
    }
}

/// Multi-core CPU scheduling policy.
#[derive(Debug, Clone, Copy, PartialEq, Eq, Structural)]
pub enum MultiCorePolicy {
    /// Tasks statically bound to cores (no migration).
    Partitioned,
    /// Global ready queue, tasks can run on any core.
    Global,
    /// k cores per cluster, global within a cluster.
    Clustered { k: u32 },
}

/// Configuration of a single device.
#[derive(Debug, Clone)]
pub struct DeviceConfig {
    pub id: DeviceId,
    pub name: String,
    /// Physical unit that several devices belong to.
    pub device_group: Option<String>,
    pub device_type: DeviceType,
    pub cores: u32,
    pub preemption: PreemptionModel,
    /// Context switch overhead (same-device task switch).
    pub context_switch_ns: Nanos,
    /// Speed relative to the baseline CPU (for heterogeneous WCET scaling).
    pub speed_factor: Rate,
    /// Multi-core policy (only meaningful for a CPU with several cores).
    pub multicore_policy: Option<MultiCorePolicy>,
    /// Power consumption in watts (optional, for energy accounting).
    pub power_watts: Option<Rate>,
}

/// Bus arbitration strategy.
#[derive(Debug, Clone, Copy, PartialEq, Eq, Structural)]
pub enum BusArbitration {
    /// Dedicated link, no contention.
    Dedicated,
    /// Round-robin arbitration.
    RoundRobin,
    /// Priority-based arbitration.
    PriorityBased,
    /// Time-division multiple access (most deterministic).
    Tdma { slot_ns: Nanos },
}

/// Interconnect link between two devices.
#[derive(Debug, Clone, Copy, PartialEq, Eq, Structural)]
pub struct InterconnectConfig {
    pub from: DeviceId,
    pub to: DeviceId,
    pub latency_ns: Nanos,
    /// Bandwidth in bytes per nanosecond (16 GB/s is 16).
    pub bandwidth_bytes_per_ns: Rate,
    /// Shared bus this link belongs to (`None` for a dedicated link).
    pub shared_bus: Option<BusId>,
    pub arbitration: BusArbitration,
}

/// Shared bus definition.
#[derive(Debug, Clone)]
pub struct SharedBusConfig {
    pub id: BusId,
    pub name: String,
    pub total_bandwidth_bytes_per_ns: Rate,
    pub arbitration: BusArbitration,
}

/// A running job holds off another one for as long as its device cannot be
/// interrupted: not at all, until the next segment, until a transfer is over,
/// or without bound.
pub proof fn law_blocking_follows_the_model(model: PreemptionModel)
    ensures
        model is FullyPreemptive ==> model.blocking_bound() == 0,
        model matches PreemptionModel::LimitedPreemptive { granularity_ns }
            ==> model.blocking_bound() == granularity_ns,
        model matches PreemptionModel::InterruptLevel { dma_non_preemptive_ns, .. }
            ==> model.blocking_bound() == dma_non_preemptive_ns,
        model is NonPreemptive ==> model.blocking_bound() == u64::MAX,
{
}

} // verus!

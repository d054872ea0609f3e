//! Policy traits for device and runtime behavior.

use crate::device::PreemptionModel;
use crate::task::{CriticalityLevel, ExecutionTimeModel};
use crate::time::Nanos;
use vstd::prelude::*;

verus! {

/// Preemption behavior abstraction.
pub trait PreemptionPolicy {
    fn max_blocking_ns(&self) -> Nanos;

    fn is_preemptible(&self) -> bool;
}

impl PreemptionPolicy for PreemptionModel {
    fn max_blocking_ns(&self) -> (ns: Nanos)
        ensures
            ns == self.blocking_bound(),
    {
        self.max_blocking()
    }

    fn is_preemptible(&self) -> (yes: bool)
        ensures
            yes == !(self is NonPreemptive),
    {
        PreemptionModel::is_preemptible(self)
    }
}

/// Execution-time behavior abstraction.
pub trait ExecutionModel {
    fn resolve_wcet(&self, level: CriticalityLevel) -> Nanos;

    fn resolve_bcet(&self, level: CriticalityLevel) -> Nanos;
}

impl ExecutionTimeModel {
    /// The worst case to assume at a criticality level.
    pub open spec fn worst_at(&self, level: CriticalityLevel) -> Nanos {
        match self {
            ExecutionTimeModel::MixedCriticality { wcet_lo, wcet_hi } => match level {
                CriticalityLevel::Lo => *wcet_lo,
                CriticalityLevel::Hi => *wcet_hi,
            },
            _ => self.worst(),
        }
    }

    /// The best case to assume at a criticality level.
    pub open spec fn best_at(&self, level: CriticalityLevel) -> Nanos {
        match self {
            ExecutionTimeModel::MixedCriticality { wcet_lo, wcet_hi } => match level {
                CriticalityLevel::Lo => *wcet_lo,
                CriticalityLevel::Hi => *wcet_hi,
            },
            _ => self.best(),
        }
    }
}

impl ExecutionModel for ExecutionTimeModel {
    fn resolve_wcet(&self, level: CriticalityLevel) -> (ns: Nanos)
        ensures
            ns == self.worst_at(level),
    {
        match self {
            ExecutionTimeModel::MixedCriticality { wcet_lo, wcet_hi } => match level {
                CriticalityLevel::Lo => *wcet_lo,
                CriticalityLevel::Hi => *wcet_hi,
            },
            _ => self.wcet(),
        }
    }

    fn resolve_bcet(&self, level: CriticalityLevel) -> (ns: Nanos)
        ensures
            ns == self.best_at(level),
    {
        match self {
            ExecutionTimeModel::MixedCriticality { wcet_lo, wcet_hi } => match level {
                CriticalityLevel::Lo => *wcet_lo,
                CriticalityLevel::Hi => *wcet_hi,
            },
            _ => self.bcet(),
        }
    }
}

/// A model of two levels gives the time of the level; any other gives the same
/// times at both, and never a best case from another model.
pub proof fn law_times_follow_the_level(model: ExecutionTimeModel, level: CriticalityLevel)
    ensures
        model matches ExecutionTimeModel::Deterministic { wcet } ==> model.worst_at(level) == wcet
            && model.best_at(level) == wcet,
        model matches ExecutionTimeModel::Stochastic { bcet, wcet, .. } ==> model.worst_at(level)
            == wcet && model.best_at(level) == bcet,
        model matches ExecutionTimeModel::MixedCriticality { wcet_lo, wcet_hi } ==> if level is Lo {
            model.worst_at(level) == wcet_lo && model.best_at(level) == wcet_lo
        } else {
            model.worst_at(level) == wcet_hi && model.best_at(level) == wcet_hi
        },
        model matches ExecutionTimeModel::MixedCriticality { wcet_lo, wcet_hi } ==> model.worst()
            == wcet_hi && model.best() == wcet_lo,
{
}

} // verus!

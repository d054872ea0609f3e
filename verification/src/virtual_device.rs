//! Virtual device behavior models, one per preemption level.

use crate::arith;
use crate::device::{DeviceConfig, PreemptionModel};
use crate::time::Nanos;
use vstd::prelude::*;

verus! {

/// Input to evaluate the timing of a dispatch decision.
#[derive(Debug, Clone, Copy, PartialEq, Eq, Structural)]
pub struct DispatchTimingInput {
    pub now_ns: Nanos,
    pub context_switch_ns: Nanos,
    pub remaining_exec_wall_ns: Nanos,
}

/// Timing behavior observed after dispatching a job to a device model.
#[derive(Debug, Clone, Copy, PartialEq, Eq, Structural)]
pub struct DispatchTiming {
    pub completion_time_ns: Nanos,
    pub next_preemption_point_ns: Option<Nanos>,
    /// Model-specific delay before the dispatch (such as FPGA
    /// reconfiguration); the two times above count from its end.
    pub additional_dispatch_delay_ns: Nanos,
}

/// Input to evaluate if a requested preemption can be applied at this instant.
#[derive(Debug, Clone, Copy, PartialEq, Eq, Structural)]
pub struct PreemptionCheckInput {
    pub at_preemption_point: bool,
}

/// Decision returned by virtual devices for preemption requests.
#[derive(Debug, Clone, Copy, PartialEq, Eq, Structural)]
pub enum PreemptionDecision {
    AllowNow,
    DeferUntilPreemptionPoint,
    Never,
}

impl PreemptionDecision {
    /// Whether the preemption takes place at once.
    pub fn allows_preemption_now(self) -> (yes: bool)
        ensures
            yes == (self is AllowNow),
    {
        match self {
            PreemptionDecision::AllowNow => true,
            _ => false,
        }
    }
}

/// A preemption decision with the time it costs the incoming job.
#[derive(Debug, Clone, Copy, PartialEq, Eq, Structural)]
pub struct PreemptionOutcome {
    pub decision: PreemptionDecision,
    pub penalty_ns: Nanos,
}

impl PreemptionOutcome {
    /// Whether the preemption takes place at once.
    pub fn allows_preemption_now(self) -> (yes: bool)
        ensures
            yes == (self.decision is AllowNow),
    {
        self.decision.allows_preemption_now()
    }
}

/// A device that can preempt at any time.
#[derive(Debug, Clone, Copy, PartialEq, Eq, Structural)]
pub struct FullyPreemptiveDevice;

/// A device that can preempt at segment boundaries.
#[derive(Debug, Clone, Copy, PartialEq, Eq, Structural)]
pub struct LimitedPreemptiveDevice {
    pub granularity_ns: Nanos,
}

/// A device that can be interrupted outside of DMA regions.
#[derive(Debug, Clone, Copy, PartialEq, Eq, Structural)]
pub struct InterruptLevelDevice {
    pub isr_overhead_ns: Nanos,
    pub dma_non_preemptive_ns: Nanos,
}

/// A device that runs to completion.
#[derive(Debug, Clone, Copy, PartialEq, Eq, Structural)]
pub struct NonPreemptiveDevice {
    pub reconfig_time_ns: Nanos,
}

/// Behavior of one device model.
trait DeviceBehavior {
    spec fn decision(&self, at_point: bool) -> PreemptionDecision;

    spec fn penalty(&self) -> Nanos;

    spec fn interval(&self) -> Option<Nanos>;

    spec fn dispatch_delay(&self) -> Nanos;

    fn evaluate_preemption(&self, input: PreemptionCheckInput) -> (outcome: PreemptionOutcome)
        ensures
            outcome.decision == self.decision(input.at_preemption_point),
            outcome.penalty_ns == self.penalty(),
    ;

    fn preemption_point_interval_ns(&self) -> (interval: Option<Nanos>)
        ensures
            interval == self.interval(),
    ;

    fn additional_dispatch_delay_ns(&self) -> (delay: Nanos)
        ensures
            delay == self.dispatch_delay(),
    ;
}

impl DeviceBehavior for FullyPreemptiveDevice {
    spec fn decision(&self, at_point: bool) -> PreemptionDecision {
        PreemptionDecision::AllowNow
    }

    spec fn penalty(&self) -> Nanos {
        0
    }

    spec fn interval(&self) -> Option<Nanos> {
        None
    }

    spec fn dispatch_delay(&self) -> Nanos {
        0
    }

    fn evaluate_preemption(&self, input: PreemptionCheckInput) -> PreemptionOutcome {
        PreemptionOutcome { decision: PreemptionDecision::AllowNow, penalty_ns: 0 }
    }

    fn preemption_point_interval_ns(&self) -> Option<Nanos> {
        None
    }

    fn additional_dispatch_delay_ns(&self) -> Nanos {
        0
    }
}

/// Allowed at a preemption point and put off to the next one elsewhere.
pub open spec fn at_points_only(at_point: bool) -> PreemptionDecision {
    if at_point {
        PreemptionDecision::AllowNow
    } else {
        PreemptionDecision::DeferUntilPreemptionPoint
    }
}

impl DeviceBehavior for LimitedPreemptiveDevice {
    spec fn decision(&self, at_point: bool) -> PreemptionDecision {
        at_points_only(at_point)
    }

    spec fn penalty(&self) -> Nanos {
        0
    }

    spec fn interval(&self) -> Option<Nanos> {
        Some(self.granularity_ns)
    }

    spec fn dispatch_delay(&self) -> Nanos {
        0
    }

    fn evaluate_preemption(&self, input: PreemptionCheckInput) -> PreemptionOutcome {
        let decision = if input.at_preemption_point {
            PreemptionDecision::AllowNow
        } else {
            PreemptionDecision::DeferUntilPreemptionPoint
        };
        PreemptionOutcome { decision, penalty_ns: 0 }
    }

    fn preemption_point_interval_ns(&self) -> Option<Nanos> {
        Some(self.granularity_ns)
    }

    fn additional_dispatch_delay_ns(&self) -> Nanos {
        0
    }
}

impl DeviceBehavior for InterruptLevelDevice {
    spec fn decision(&self, at_point: bool) -> PreemptionDecision {
        at_points_only(at_point)
    }

    spec fn penalty(&self) -> Nanos {
        self.isr_overhead_ns
    }

    spec fn interval(&self) -> Option<Nanos> {
        Some(self.dma_non_preemptive_ns)
    }

    spec fn dispatch_delay(&self) -> Nanos {
        0
    }

    fn evaluate_preemption(&self, input: PreemptionCheckInput) -> PreemptionOutcome {
        let decision = if input.at_preemption_point {
            PreemptionDecision::AllowNow
        } else {
            PreemptionDecision::DeferUntilPreemptionPoint
        };
        PreemptionOutcome { decision, penalty_ns: self.isr_overhead_ns }
    }

    fn preemption_point_interval_ns(&self) -> Option<Nanos> {
        Some(self.dma_non_preemptive_ns)
    }

    fn additional_dispatch_delay_ns(&self) -> Nanos {
        0
    }
}

impl DeviceBehavior for NonPreemptiveDevice {
    spec fn decision(&self, at_point: bool) -> PreemptionDecision {
        PreemptionDecision::Never
    }

    spec fn penalty(&self) -> Nanos {
        0
    }

    spec fn interval(&self) -> Option<Nanos> {
        None
    }

    spec fn dispatch_delay(&self) -> Nanos {
        self.reconfig_time_ns
    }

    fn evaluate_preemption(&self, input: PreemptionCheckInput) -> PreemptionOutcome {
        PreemptionOutcome { decision: PreemptionDecision::Never, penalty_ns: 0 }
    }

    fn preemption_point_interval_ns(&self) -> Option<Nanos> {
        None
    }

    fn additional_dispatch_delay_ns(&self) -> Nanos {
        self.reconfig_time_ns
    }
}

/// Concrete virtual device behavior model.
#[derive(Debug, Clone, Copy, PartialEq, Eq, Structural)]
pub enum VirtualDeviceModel {
    FullyPreemptive(FullyPreemptiveDevice),
    LimitedPreemptive(LimitedPreemptiveDevice),
    InterruptLevel(InterruptLevelDevice),
    NonPreemptive(NonPreemptiveDevice),
}

impl VirtualDeviceModel {
    /// The behavior that belongs to a preemption model.
    pub open spec fn of(preemption: PreemptionModel) -> VirtualDeviceModel {
        match preemption {
            PreemptionModel::FullyPreemptive => VirtualDeviceModel::FullyPreemptive(
                FullyPreemptiveDevice,
            ),
            PreemptionModel::LimitedPreemptive { granularity_ns } => {
                VirtualDeviceModel::LimitedPreemptive(LimitedPreemptiveDevice { granularity_ns })
            },
            PreemptionModel::InterruptLevel { isr_overhead_ns, dma_non_preemptive_ns } => {
                VirtualDeviceModel::InterruptLevel(
                    InterruptLevelDevice { isr_overhead_ns, dma_non_preemptive_ns },
                )
            },
            PreemptionModel::NonPreemptive { reconfig_time_ns } => {
                VirtualDeviceModel::NonPreemptive(NonPreemptiveDevice { reconfig_time_ns })
            },
        }
    }

    /// What becomes of a preemption request.
    pub open spec fn decides(self, at_point: bool) -> PreemptionDecision {
        match self {
            VirtualDeviceModel::FullyPreemptive(_) => PreemptionDecision::AllowNow,
            VirtualDeviceModel::LimitedPreemptive(_) => at_points_only(at_point),
            VirtualDeviceModel::InterruptLevel(_) => at_points_only(at_point),
            VirtualDeviceModel::NonPreemptive(_) => PreemptionDecision::Never,
        }
    }

    /// What a preemption costs the incoming job.
    pub open spec fn penalty_of(self) -> Nanos {
        match self {
            VirtualDeviceModel::InterruptLevel(m) => m.isr_overhead_ns,
            _ => 0,
        }
    }

    /// Time from a dispatch, and from each preemption point, to the next one.
    pub open spec fn point_interval(self) -> Option<Nanos> {
        match self {
            VirtualDeviceModel::LimitedPreemptive(m) => Some(m.granularity_ns),
            VirtualDeviceModel::InterruptLevel(m) => Some(m.dma_non_preemptive_ns),
            _ => None,
        }
    }

    /// Time that the device needs before any dispatch.
    pub open spec fn delay_of(self) -> Nanos {
        match self {
            VirtualDeviceModel::NonPreemptive(m) => m.reconfig_time_ns,
            _ => 0,
        }
    }

    /// The timing of a dispatch.
    pub open spec fn timing_of(self, input: DispatchTimingInput) -> DispatchTiming {
        DispatchTiming {
            completion_time_ns: arith::sat_add(
                arith::sat_add(input.now_ns, input.context_switch_ns),
                input.remaining_exec_wall_ns,
            ),
            next_preemption_point_ns: match self.point_interval() {
                Some(interval) => Some(arith::sat_add(input.now_ns, interval)),
                None => None,
            },
            additional_dispatch_delay_ns: self.delay_of(),
        }
    }

    /// Builds the model of a device.
    pub fn from_device(device: &DeviceConfig) -> (model: Self)
        ensures
            model == VirtualDeviceModel::of(device.preemption),
    {
        Self::from_preemption(device.preemption)
    }

    /// Builds the model of a preemption level.
    pub fn from_preemption(preemption: PreemptionModel) -> (model: Self)
        ensures
            model == VirtualDeviceModel::of(preemption),
    {
        match preemption {
            PreemptionModel::FullyPreemptive => VirtualDeviceModel::FullyPreemptive(
                FullyPreemptiveDevice,
            ),
            PreemptionModel::LimitedPreemptive { granularity_ns } => {
                VirtualDeviceModel::LimitedPreemptive(LimitedPreemptiveDevice { granularity_ns })
            },
            PreemptionModel::InterruptLevel { isr_overhead_ns, dma_non_preemptive_ns } => {
                VirtualDeviceModel::InterruptLevel(
                    InterruptLevelDevice { isr_overhead_ns, dma_non_preemptive_ns },
                )
            },
            PreemptionModel::NonPreemptive { reconfig_time_ns } => {
                VirtualDeviceModel::NonPreemptive(NonPreemptiveDevice { reconfig_time_ns })
            },
        }
    }

    /// Evaluates when a job dispatched now completes and can be preempted.
    pub fn evaluate_dispatch_timing(&self, input: DispatchTimingInput) -> (timing: DispatchTiming)
        ensures
            timing == self.timing_of(input),
    {
        let completion_time_ns: Nanos = input.now_ns.saturating_add(
            input.context_switch_ns,
        ).saturating_add(input.remaining_exec_wall_ns);
        let next_preemption_point_ns: Option<Nanos> = match self.preemption_point_interval_ns() {
            Some(interval) => Some(input.now_ns.saturating_add(interval)),
            None => None,
        };
        let additional_dispatch_delay_ns: Nanos = match self {
            VirtualDeviceModel::FullyPreemptive(m) => m.additional_dispatch_delay_ns(),
            VirtualDeviceModel::LimitedPreemptive(m) => m.additional_dispatch_delay_ns(),
            VirtualDeviceModel::InterruptLevel(m) => m.additional_dispatch_delay_ns(),
            VirtualDeviceModel::NonPreemptive(m) => m.additional_dispatch_delay_ns(),
        };
        DispatchTiming { completion_time_ns, next_preemption_point_ns, additional_dispatch_delay_ns }
    }

    /// Decides on a preemption request, with its cost.
    pub fn preemption_outcome(&self, input: PreemptionCheckInput) -> (outcome: PreemptionOutcome)
        ensures
            outcome == (PreemptionOutcome {
                decision: self.decides(input.at_preemption_point),
                penalty_ns: self.penalty_of(),
            }),
    {
        match self {
            VirtualDeviceModel::FullyPreemptive(m) => m.evaluate_preemption(input),
            VirtualDeviceModel::LimitedPreemptive(m) => m.evaluate_preemption(input),
            VirtualDeviceModel::InterruptLevel(m) => m.evaluate_preemption(input),
            VirtualDeviceModel::NonPreemptive(m) => m.evaluate_preemption(input),
        }
    }

    /// Decides on a preemption request.
    pub fn evaluate_preemption(&self, input: PreemptionCheckInput) -> (decision: PreemptionDecision)
        ensures
            decision == self.decides(input.at_preemption_point),
    {
        self.preemption_outcome(input).decision
    }

    /// Time from a dispatch to its first preemption point.
    pub fn preemption_point_interval_ns(&self) -> (interval: Option<Nanos>)
        ensures
            interval == self.point_interval(),
    {
        match self {
            VirtualDeviceModel::FullyPreemptive(m) => m.preemption_point_interval_ns(),
            VirtualDeviceModel::LimitedPreemptive(m) => m.preemption_point_interval_ns(),
            VirtualDeviceModel::InterruptLevel(m) => m.preemption_point_interval_ns(),
            VirtualDeviceModel::NonPreemptive(m) => m.preemption_point_interval_ns(),
        }
    }
}

/// A preemption request is never refused for good on a device that counts as
/// preemptible, always granted at a preemption point there, and never granted
/// on one that does not.
pub proof fn law_decision_follows_preemptibility(model: PreemptionModel, at_point: bool)
    ensures
        model is NonPreemptive <==> VirtualDeviceModel::of(model).decides(at_point) is Never,
        !(model is NonPreemptive) ==> VirtualDeviceModel::of(model).decides(true) is AllowNow,
{
}

/// A preemption that is put off waits no longer than the blocking bound of the
/// device: the interval between two preemption points is that bound.
pub proof fn law_deferral_is_bounded(model: PreemptionModel)
    requires
        VirtualDeviceModel::of(model).decides(false) is DeferUntilPreemptionPoint,
    ensures
        VirtualDeviceModel::of(model).point_interval() == Some(model.blocking_bound()),
{
}

/// A dispatched job completes after the context switch and the time that its
/// work takes; the device comes to its first preemption point one interval
/// after the dispatch. Only a device that is reconfigured delays a dispatch,
/// and only an interrupt costs a preempting job anything.
pub proof fn law_dispatch_timing(preemption: PreemptionModel, input: DispatchTimingInput)
    ensures
        ({
            let model = VirtualDeviceModel::of(preemption);
            let timing = model.timing_of(input);
            let whole = input.now_ns + input.context_switch_ns + input.remaining_exec_wall_ns;
            &&& whole <= u64::MAX ==> timing.completion_time_ns == whole
            &&& whole > u64::MAX ==> timing.completion_time_ns == u64::MAX
            &&& preemption matches PreemptionModel::LimitedPreemptive { granularity_ns } ==> (
            timing.next_preemption_point_ns matches Some(point) && (point == input.now_ns
                + granularity_ns || point == u64::MAX && input.now_ns + granularity_ns
                > u64::MAX))
            &&& preemption matches PreemptionModel::InterruptLevel { dma_non_preemptive_ns, .. }
                ==> (timing.next_preemption_point_ns matches Some(point) && (point == input.now_ns
                + dma_non_preemptive_ns || point == u64::MAX && input.now_ns
                + dma_non_preemptive_ns > u64::MAX))
            &&& preemption is FullyPreemptive || preemption is NonPreemptive
                ==> timing.next_preemption_point_ns is None
            &&& preemption matches PreemptionModel::NonPreemptive { reconfig_time_ns }
                ==> timing.additional_dispatch_delay_ns == reconfig_time_ns
            &&& !(preemption is NonPreemptive) ==> timing.additional_dispatch_delay_ns == 0
            &&& preemption matches PreemptionModel::InterruptLevel { isr_overhead_ns, .. }
                ==> model.penalty_of() == isr_overhead_ns
            &&& !(preemption is InterruptLevel) ==> model.penalty_of() == 0
        }),
{
}

/// A preemption request is granted at once on a fully preemptive device, at
/// preemption points on devices that have such and put off there otherwise,
/// and never on a device that is not preemptive.
pub proof fn law_requests_are_decided_by_the_model(preemption: PreemptionModel)
    ensures
        preemption is FullyPreemptive ==> VirtualDeviceModel::of(preemption).decides(false)
            is AllowNow && VirtualDeviceModel::of(preemption).decides(true) is AllowNow,
        preemption is LimitedPreemptive || preemption is InterruptLevel ==> {
            &&& VirtualDeviceModel::of(preemption).decides(true) is AllowNow
            &&& VirtualDeviceModel::of(preemption).decides(false) is DeferUntilPreemptionPoint
        },
        preemption is NonPreemptive ==> VirtualDeviceModel::of(preemption).decides(false) is Never
            && VirtualDeviceModel::of(preemption).decides(true) is Never,
{
}

} // verus!

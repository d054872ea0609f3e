//! The scheduling algorithms by name.

use crate::agree;
use crate::drive;
use crate::engine::SimEngine;
use crate::ids::DeviceId;
use crate::scheduler::{ReevaluationPolicy, Scheduler};
use crate::schedulers::edfvd;
use crate::schedulers::{
    CpEdfScheduler, EdfScheduler, EdfVdScheduler, FederatedScheduler, FixedPriorityScheduler,
    GPreemptScheduler, GangScheduler, GlobalEdfScheduler, GpuPreemptivePriorityScheduler, HeftPlan,
    HeftScheduler, LlfScheduler, MatchScheduler, RtgpuScheduler, XSchedScheduler,
};
use crate::sim::Sim;
use crate::sound;
use crate::words;
use vstd::prelude::*;
use vstd::string::*;

verus! {

/// A scheduling algorithm.
#[derive(Debug, Clone, Copy, PartialEq, Eq, Structural)]
pub enum SchedulerKind {
    Fp,
    Edf,
    Edfvd,
    Llf,
    Heft,
    Cpedf,
    Federated,
    GlobalEdf,
    Gang,
    Xsched,
    Gcaps,
    Gpreempt,
    Rtgpu,
    Match,
    GpuPreemptivePriority,
}

/// The algorithm that a word names.
pub open spec fn kind_named(s: Seq<char>) -> Option<SchedulerKind> {
    if words::reads(s, "fp"@) {
        Some(SchedulerKind::Fp)
    } else if words::reads(s, "edf"@) {
        Some(SchedulerKind::Edf)
    } else if words::reads(s, "edfvd"@) {
        Some(SchedulerKind::Edfvd)
    } else if words::reads(s, "llf"@) {
        Some(SchedulerKind::Llf)
    } else if words::reads(s, "heft"@) {
        Some(SchedulerKind::Heft)
    } else if words::reads(s, "cpedf"@) {
        Some(SchedulerKind::Cpedf)
    } else if words::reads(s, "federated"@) {
        Some(SchedulerKind::Federated)
    } else if words::reads(s, "global-edf"@)
        || words::reads(s, "global_edf"@)
        || words::reads(s, "globaledf"@)
        || words::reads(s, "gedf"@) {
        Some(SchedulerKind::GlobalEdf)
    } else if words::reads(s, "gang"@) {
        Some(SchedulerKind::Gang)
    } else if words::reads(s, "xsched"@) || words::reads(s, "x-sched"@) {
        Some(SchedulerKind::Xsched)
    } else if words::reads(s, "gcaps"@) {
        Some(SchedulerKind::Gcaps)
    } else if words::reads(s, "gpreempt"@) || words::reads(s, "g-preempt"@) {
        Some(SchedulerKind::Gpreempt)
    } else if words::reads(s, "rtgpu"@) || words::reads(s, "rt-gpu"@) {
        Some(SchedulerKind::Rtgpu)
    } else if words::reads(s, "match"@) {
        Some(SchedulerKind::Match)
    } else if words::reads(s, "gpu-preemptive-priority"@)
        || words::reads(s, "gpu_preemptive_priority"@)
        || words::reads(s, "gpu-preempt-priority"@)
        || words::reads(s, "gpupp"@) {
        Some(SchedulerKind::GpuPreemptivePriority)
    } else {
        None
    }
}

/// What words name.
pub open spec fn kinds() -> spec_fn(Seq<char>) -> Option<SchedulerKind> {
    |s: Seq<char>| kind_named(s)
}

/// Reads the name of an algorithm.
fn read_kind(s: &str) -> (kind: Option<SchedulerKind>)
    ensures
        kind == kind_named(s@),
{
    if words::reads_as(s, "fp") {
        Some(SchedulerKind::Fp)
    } else if words::reads_as(s, "edf") {
        Some(SchedulerKind::Edf)
    } else if words::reads_as(s, "edfvd") {
        Some(SchedulerKind::Edfvd)
    } else if words::reads_as(s, "llf") {
        Some(SchedulerKind::Llf)
    } else if words::reads_as(s, "heft") {
        Some(SchedulerKind::Heft)
    } else if words::reads_as(s, "cpedf") {
        Some(SchedulerKind::Cpedf)
    } else if words::reads_as(s, "federated") {
        Some(SchedulerKind::Federated)
    } else if words::reads_as(s, "global-edf")
        || words::reads_as(s, "global_edf")
        || words::reads_as(s, "globaledf")
        || words::reads_as(s, "gedf") {
        Some(SchedulerKind::GlobalEdf)
    } else if words::reads_as(s, "gang") {
        Some(SchedulerKind::Gang)
    } else if words::reads_as(s, "xsched") || words::reads_as(s, "x-sched") {
        Some(SchedulerKind::Xsched)
    } else if words::reads_as(s, "gcaps") {
        Some(SchedulerKind::Gcaps)
    } else if words::reads_as(s, "gpreempt") || words::reads_as(s, "g-preempt") {
        Some(SchedulerKind::Gpreempt)
    } else if words::reads_as(s, "rtgpu") || words::reads_as(s, "rt-gpu") {
        Some(SchedulerKind::Rtgpu)
    } else if words::reads_as(s, "match") {
        Some(SchedulerKind::Match)
    } else if words::reads_as(s, "gpu-preemptive-priority")
        || words::reads_as(s, "gpu_preemptive_priority")
        || words::reads_as(s, "gpu-preempt-priority")
        || words::reads_as(s, "gpupp") {
        Some(SchedulerKind::GpuPreemptivePriority)
    } else {
        None
    }
}

/// The algorithms that a list names, or what is wrong with it.
pub open spec fn scheduler_list(s: Seq<char>) -> Result<Seq<SchedulerKind>, Seq<char>> {
    match words::values(words::words(s), kinds()) {
        Err(i) => Err("unknown scheduler: "@ + words::words(s)[i]),
        Ok(known) => if known.len() == 0 {
            Err("scheduler list is empty"@)
        } else {
            Ok(known)
        },
    }
}

/// Reads a list of algorithms that is separated by commas.
pub fn parse_scheduler_list(s: &str) -> (list: Result<Vec<SchedulerKind>, String>)
    ensures
        match (list, scheduler_list(s@)) {
            (Ok(out), Ok(known)) => out@ == known,
            (Err(e), Err(text)) => e@ == text,
            _ => false,
        },
{
    let tokens: Vec<&str> = words::split_words(s);
    let ghost all = words::words(s@);
    let mut out: Vec<SchedulerKind> = Vec::new();
    let mut i: usize = 0;
    proof {
        assert(all.take(0) =~= Seq::empty());
        assert(out@ =~= Seq::empty());
    }
    while i < tokens.len()
        invariant
            i <= tokens@.len(),
            all == words::texts(tokens@),
            all == words::words(s@),
            words::values(all.take(i as int), kinds()) == Ok::<Seq<SchedulerKind>, int>(out@),
        decreases tokens@.len() - i,
    {
        let token: &str = tokens[i];
        proof {
            assert(all.take(i as int + 1).drop_last() =~= all.take(i as int));
            assert(all.take(i as int + 1).last() == token@);
        }
        match read_kind(token) {
            Some(kind) => {
                out.push(kind);
            },
            None => {
                proof {
                    words::lemma_values_fail(all, kinds(), i as int + 1);
                }
                let mut message: String = String::from_str("unknown scheduler: ");
                message.append(token);
                return Err(message);
            },
        }
        i = i + 1;
    }
    proof {
        assert(all.take(i as int) =~= all);
    }
    if out.len() == 0 {
        return Err(String::from_str("scheduler list is empty"));
    }
    Ok(out)
}

/// The name of an algorithm in reports.
pub open spec fn label_text(kind: SchedulerKind) -> Seq<char> {
    match kind {
        SchedulerKind::Fp => "FP-Het"@,
        SchedulerKind::Edf => "EDF-Het"@,
        SchedulerKind::Edfvd => "EDF-VD-Het"@,
        SchedulerKind::Llf => "LLF-Het"@,
        SchedulerKind::Heft => "HEFT"@,
        SchedulerKind::Cpedf => "CP-EDF"@,
        SchedulerKind::Federated => "Federated"@,
        SchedulerKind::GlobalEdf => "Global-EDF"@,
        SchedulerKind::Gang => "Gang"@,
        SchedulerKind::Xsched => "XSched"@,
        SchedulerKind::Gcaps => "GCAPS"@,
        SchedulerKind::Gpreempt => "GPreempt"@,
        SchedulerKind::Rtgpu => "RTGPU"@,
        SchedulerKind::Match => "MATCH"@,
        SchedulerKind::GpuPreemptivePriority => "GPU-Preemptive-Priority"@,
    }
}

/// The name of an algorithm on the command line.
pub open spec fn key_text(kind: SchedulerKind) -> Seq<char> {
    match kind {
        SchedulerKind::Fp => "fp"@,
        SchedulerKind::Edf => "edf"@,
        SchedulerKind::Edfvd => "edfvd"@,
        SchedulerKind::Llf => "llf"@,
        SchedulerKind::Heft => "heft"@,
        SchedulerKind::Cpedf => "cpedf"@,
        SchedulerKind::Federated => "federated"@,
        SchedulerKind::GlobalEdf => "global-edf"@,
        SchedulerKind::Gang => "gang"@,
        SchedulerKind::Xsched => "xsched"@,
        SchedulerKind::Gcaps => "gcaps"@,
        SchedulerKind::Gpreempt => "gpreempt"@,
        SchedulerKind::Rtgpu => "rtgpu"@,
        SchedulerKind::Match => "match"@,
        SchedulerKind::GpuPreemptivePriority => "gpu-preemptive-priority"@,
    }
}

/// The family of an algorithm.
pub open spec fn family_text(kind: SchedulerKind) -> Seq<char> {
    match kind {
        SchedulerKind::Fp
        | SchedulerKind::Federated
        | SchedulerKind::Gang => "fixed-priority"@,
        SchedulerKind::Edf
        | SchedulerKind::Edfvd
        | SchedulerKind::GlobalEdf => "deadline-driven"@,
        SchedulerKind::Llf => "laxity-driven"@,
        SchedulerKind::Heft
        | SchedulerKind::Cpedf => "dag-aware"@,
        SchedulerKind::Xsched
        | SchedulerKind::Gcaps
        | SchedulerKind::Gpreempt
        | SchedulerKind::Rtgpu
        | SchedulerKind::Match
        | SchedulerKind::GpuPreemptivePriority => "paper-heterogeneous"@,
    }
}

/// Names an algorithm in reports.
pub fn scheduler_label(kind: SchedulerKind) -> (label: &'static str)
    ensures
        label@ == label_text(kind),
{
    match kind {
        SchedulerKind::Fp => "FP-Het",
        SchedulerKind::Edf => "EDF-Het",
        SchedulerKind::Edfvd => "EDF-VD-Het",
        SchedulerKind::Llf => "LLF-Het",
        SchedulerKind::Heft => "HEFT",
        SchedulerKind::Cpedf => "CP-EDF",
        SchedulerKind::Federated => "Federated",
        SchedulerKind::GlobalEdf => "Global-EDF",
        SchedulerKind::Gang => "Gang",
        SchedulerKind::Xsched => "XSched",
        SchedulerKind::Gcaps => "GCAPS",
        SchedulerKind::Gpreempt => "GPreempt",
        SchedulerKind::Rtgpu => "RTGPU",
        SchedulerKind::Match => "MATCH",
        SchedulerKind::GpuPreemptivePriority => "GPU-Preemptive-Priority",
    }
}

/// Names an algorithm on the command line.
pub fn scheduler_key(kind: SchedulerKind) -> (key: &'static str)
    ensures
        key@ == key_text(kind),
{
    match kind {
        SchedulerKind::Fp => "fp",
        SchedulerKind::Edf => "edf",
        SchedulerKind::Edfvd => "edfvd",
        SchedulerKind::Llf => "llf",
        SchedulerKind::Heft => "heft",
        SchedulerKind::Cpedf => "cpedf",
        SchedulerKind::Federated => "federated",
        SchedulerKind::GlobalEdf => "global-edf",
        SchedulerKind::Gang => "gang",
        SchedulerKind::Xsched => "xsched",
        SchedulerKind::Gcaps => "gcaps",
        SchedulerKind::Gpreempt => "gpreempt",
        SchedulerKind::Rtgpu => "rtgpu",
        SchedulerKind::Match => "match",
        SchedulerKind::GpuPreemptivePriority => "gpu-preemptive-priority",
    }
}

/// Names the family of an algorithm.
pub fn scheduler_family(kind: SchedulerKind) -> (family: &'static str)
    ensures
        family@ == family_text(kind),
{
    match kind {
        SchedulerKind::Fp
        | SchedulerKind::Federated
        | SchedulerKind::Gang => "fixed-priority",
        SchedulerKind::Edf
        | SchedulerKind::Edfvd
        | SchedulerKind::GlobalEdf => "deadline-driven",
        SchedulerKind::Llf => "laxity-driven",
        SchedulerKind::Heft
        | SchedulerKind::Cpedf => "dag-aware",
        SchedulerKind::Xsched
        | SchedulerKind::Gcaps
        | SchedulerKind::Gpreempt
        | SchedulerKind::Rtgpu
        | SchedulerKind::Match
        | SchedulerKind::GpuPreemptivePriority => "paper-heterogeneous",
    }
}

/// A scheduler of any kind.
pub enum AnyScheduler {
    Fp(FixedPriorityScheduler),
    Edf(EdfScheduler),
    Edfvd(EdfVdScheduler),
    Llf(LlfScheduler),
    Heft(HeftScheduler),
    Cpedf(CpEdfScheduler),
    Federated(FederatedScheduler),
    GlobalEdf(GlobalEdfScheduler),
    Gang(GangScheduler),
    Xsched(XSchedScheduler),
    Gpreempt(GPreemptScheduler),
    Rtgpu(RtgpuScheduler),
    Match(MatchScheduler),
    GpuPreemptivePriority(GpuPreemptivePriorityScheduler),
}

impl AnyScheduler {
    /// The kind of the scheduler.
    pub open spec fn kind(&self) -> SchedulerKind {
        match self {
            AnyScheduler::Fp(_) => SchedulerKind::Fp,
            AnyScheduler::Edf(_) => SchedulerKind::Edf,
            AnyScheduler::Edfvd(_) => SchedulerKind::Edfvd,
            AnyScheduler::Llf(_) => SchedulerKind::Llf,
            AnyScheduler::Heft(_) => SchedulerKind::Heft,
            AnyScheduler::Cpedf(_) => SchedulerKind::Cpedf,
            AnyScheduler::Federated(_) => SchedulerKind::Federated,
            AnyScheduler::GlobalEdf(_) => SchedulerKind::GlobalEdf,
            AnyScheduler::Gang(_) => SchedulerKind::Gang,
            AnyScheduler::Xsched(_) => SchedulerKind::Xsched,
            AnyScheduler::Gpreempt(_) => SchedulerKind::Gpreempt,
            AnyScheduler::Rtgpu(_) => SchedulerKind::Rtgpu,
            AnyScheduler::Match(_) => SchedulerKind::Match,
            AnyScheduler::GpuPreemptivePriority(_) => SchedulerKind::GpuPreemptivePriority,
        }
    }

    /// Whether the scheduler has not been used yet.
    pub open spec fn is_fresh(&self) -> bool {
        match self {
            AnyScheduler::Edfvd(s) => s.num() == edfvd::DEFAULT_VIRTUAL_DEADLINE_NUM && s.den()
                == edfvd::DEFAULT_VIRTUAL_DEADLINE_DEN,
            AnyScheduler::Llf(s) => s.policy() == (ReevaluationPolicy::Hybrid {
                interval_ns: 5_000,
                min_interval_ns: 1_000,
            }) && s.progress().remaining == Map::<u64, u64>::empty() && s.progress().elapsed == Map::<
                u64,
                u64,
            >::empty(),
            AnyScheduler::Heft(s) => s.plans() == Map::<u64, HeftPlan>::empty() && s.task_plans()
                == Map::<u32, HeftPlan>::empty(),
            AnyScheduler::Cpedf(s) => s.progress().remaining == Map::<u64, u64>::empty()
                && s.progress().elapsed == Map::<u64, u64>::empty() && s.stages() == Map::<
                u64,
                u64,
            >::empty(),
            AnyScheduler::Federated(s) => s.slots() == Map::<u128, DeviceId>::empty(),
            AnyScheduler::Gang(s) => s.active_task is None,
            AnyScheduler::Match(s) => s.mapping() == Map::<u64, u64>::empty() && s.allocations()
                == Map::<u64, u64>::empty(),
            _ => true,
        }
    }

    /// The name of the algorithm.
    pub fn name(&self) -> (name: &str)
        ensures
            name@ == label_text(self.kind()),
    {
        match self {
            AnyScheduler::Fp(s) => s.name(),
            AnyScheduler::Edf(s) => s.name(),
            AnyScheduler::Edfvd(s) => s.name(),
            AnyScheduler::Llf(s) => s.name(),
            AnyScheduler::Heft(s) => s.name(),
            AnyScheduler::Cpedf(s) => s.name(),
            AnyScheduler::Federated(s) => s.name(),
            AnyScheduler::GlobalEdf(s) => s.name(),
            AnyScheduler::Gang(s) => s.name(),
            AnyScheduler::Xsched(s) => s.name(),
            AnyScheduler::Gpreempt(s) => s.name(),
            AnyScheduler::Rtgpu(s) => s.name(),
            AnyScheduler::Match(s) => s.name(),
            AnyScheduler::GpuPreemptivePriority(s) => s.name(),
        }
    }

    /// Whether the scheduler can take a simulation from one state to another,
    /// and becomes `next` by that.
    pub open spec fn drives(self, first: Sim, next: AnyScheduler, last: Sim) -> bool {
        match (self, next) {
            (AnyScheduler::Fp(a), AnyScheduler::Fp(b)) => drive::drives(a, first, b, last),
            (AnyScheduler::Edf(a), AnyScheduler::Edf(b)) => drive::drives(a, first, b, last),
            (AnyScheduler::Edfvd(a), AnyScheduler::Edfvd(b)) => drive::drives(a, first, b, last),
            (AnyScheduler::Llf(a), AnyScheduler::Llf(b)) => drive::drives(a, first, b, last),
            (AnyScheduler::Heft(a), AnyScheduler::Heft(b)) => drive::drives(a, first, b, last),
            (AnyScheduler::Cpedf(a), AnyScheduler::Cpedf(b)) => drive::drives(a, first, b, last),
            (AnyScheduler::Federated(a), AnyScheduler::Federated(b)) => drive::drives(a, first, b, last),
            (AnyScheduler::GlobalEdf(a), AnyScheduler::GlobalEdf(b)) => drive::drives(a, first, b, last),
            (AnyScheduler::Gang(a), AnyScheduler::Gang(b)) => drive::drives(a, first, b, last),
            (AnyScheduler::Xsched(a), AnyScheduler::Xsched(b)) => drive::drives(a, first, b, last),
            (AnyScheduler::Gpreempt(a), AnyScheduler::Gpreempt(b)) => drive::drives(a, first, b, last),
            (AnyScheduler::Rtgpu(a), AnyScheduler::Rtgpu(b)) => drive::drives(a, first, b, last),
            (AnyScheduler::Match(a), AnyScheduler::Match(b)) => drive::drives(a, first, b, last),
            (
                AnyScheduler::GpuPreemptivePriority(a),
                AnyScheduler::GpuPreemptivePriority(b),
            ) => drive::drives(a, first, b, last),
            _ => false,
        }
    }

    /// Runs a simulation with the scheduler.
    pub fn run(&mut self, engine: &mut SimEngine)
        requires
            old(engine).wf(),
        ensures
            final(self).kind() == old(self).kind(),
            final(engine).wf(),
            old(self).drives(old(engine)@, *final(self), final(engine)@),
    {
        match self {
            AnyScheduler::Fp(s) => engine.run(s),
            AnyScheduler::Edf(s) => engine.run(s),
            AnyScheduler::Edfvd(s) => engine.run(s),
            AnyScheduler::Llf(s) => engine.run(s),
            AnyScheduler::Heft(s) => engine.run(s),
            AnyScheduler::Cpedf(s) => engine.run(s),
            AnyScheduler::Federated(s) => engine.run(s),
            AnyScheduler::GlobalEdf(s) => engine.run(s),
            AnyScheduler::Gang(s) => engine.run(s),
            AnyScheduler::Xsched(s) => engine.run(s),
            AnyScheduler::Gpreempt(s) => engine.run(s),
            AnyScheduler::Rtgpu(s) => engine.run(s),
            AnyScheduler::Match(s) => engine.run(s),
            AnyScheduler::GpuPreemptivePriority(s) => engine.run(s),
        }
    }
}

/// Builds a scheduler. GCAPS is a known name without an implementation.
pub fn build_scheduler(kind: SchedulerKind) -> (scheduler: Option<AnyScheduler>)
    ensures
        match scheduler {
            Some(s) => s.kind() == kind && s.is_fresh(),
            None => kind is Gcaps,
        },
{
    match kind {
        SchedulerKind::Fp => Some(AnyScheduler::Fp(FixedPriorityScheduler)),
        SchedulerKind::Edf => Some(AnyScheduler::Edf(EdfScheduler)),
        SchedulerKind::Edfvd => Some(AnyScheduler::Edfvd(EdfVdScheduler::default())),
        SchedulerKind::Llf => Some(AnyScheduler::Llf(LlfScheduler::default())),
        SchedulerKind::Heft => Some(AnyScheduler::Heft(HeftScheduler::default())),
        SchedulerKind::Cpedf => Some(AnyScheduler::Cpedf(CpEdfScheduler::default())),
        SchedulerKind::Federated => Some(AnyScheduler::Federated(FederatedScheduler::default())),
        SchedulerKind::GlobalEdf => Some(AnyScheduler::GlobalEdf(GlobalEdfScheduler)),
        SchedulerKind::Gang => Some(AnyScheduler::Gang(GangScheduler::default())),
        SchedulerKind::Xsched => Some(AnyScheduler::Xsched(XSchedScheduler)),
        SchedulerKind::Gcaps => None,
        SchedulerKind::Gpreempt => Some(AnyScheduler::Gpreempt(GPreemptScheduler)),
        SchedulerKind::Rtgpu => Some(AnyScheduler::Rtgpu(RtgpuScheduler)),
        SchedulerKind::Match => Some(AnyScheduler::Match(MatchScheduler::default())),
        SchedulerKind::GpuPreemptivePriority => Some(AnyScheduler::GpuPreemptivePriority(GpuPreemptivePriorityScheduler)),
    }
}

/// Whatever the algorithm, what two unused schedulers of it make of one sound
/// state is the same.
pub proof fn law_outcomes_agree(
    first: Sim,
    a: AnyScheduler,
    next_a: AnyScheduler,
    last_a: Sim,
    b: AnyScheduler,
    next_b: AnyScheduler,
    last_b: Sim,
)
    requires
        sound::sound(first),
        a.kind() == b.kind(),
        a.is_fresh(),
        b.is_fresh(),
        a.drives(first, next_a, last_a),
        b.drives(first, next_b, last_b),
    ensures
        last_a == last_b,
{
    agree::law_algorithms_are_determined();
    match (a, next_a, b, next_b) {
        (
            AnyScheduler::Fp(a),
            AnyScheduler::Fp(m),
            AnyScheduler::Fp(b),
            AnyScheduler::Fp(n),
        ) => agree::law_outcomes_agree(first, a, m, last_a, b, n, last_b),
        (
            AnyScheduler::Edf(a),
            AnyScheduler::Edf(m),
            AnyScheduler::Edf(b),
            AnyScheduler::Edf(n),
        ) => agree::law_outcomes_agree(first, a, m, last_a, b, n, last_b),
        (
            AnyScheduler::Edfvd(a),
            AnyScheduler::Edfvd(m),
            AnyScheduler::Edfvd(b),
            AnyScheduler::Edfvd(n),
        ) => agree::law_outcomes_agree(first, a, m, last_a, b, n, last_b),
        (
            AnyScheduler::Llf(a),
            AnyScheduler::Llf(m),
            AnyScheduler::Llf(b),
            AnyScheduler::Llf(n),
        ) => agree::law_outcomes_agree(first, a, m, last_a, b, n, last_b),
        (
            AnyScheduler::Heft(a),
            AnyScheduler::Heft(m),
            AnyScheduler::Heft(b),
            AnyScheduler::Heft(n),
        ) => agree::law_outcomes_agree(first, a, m, last_a, b, n, last_b),
        (
            AnyScheduler::Cpedf(a),
            AnyScheduler::Cpedf(m),
            AnyScheduler::Cpedf(b),
            AnyScheduler::Cpedf(n),
        ) => agree::law_outcomes_agree(first, a, m, last_a, b, n, last_b),
        (
            AnyScheduler::Federated(a),
            AnyScheduler::Federated(m),
            AnyScheduler::Federated(b),
            AnyScheduler::Federated(n),
        ) => agree::law_outcomes_agree(first, a, m, last_a, b, n, last_b),
        (
            AnyScheduler::GlobalEdf(a),
            AnyScheduler::GlobalEdf(m),
            AnyScheduler::GlobalEdf(b),
            AnyScheduler::GlobalEdf(n),
        ) => agree::law_outcomes_agree(first, a, m, last_a, b, n, last_b),
        (
            AnyScheduler::Gang(a),
            AnyScheduler::Gang(m),
            AnyScheduler::Gang(b),
            AnyScheduler::Gang(n),
        ) => agree::law_outcomes_agree(first, a, m, last_a, b, n, last_b),
        (
            AnyScheduler::Xsched(a),
            AnyScheduler::Xsched(m),
            AnyScheduler::Xsched(b),
            AnyScheduler::Xsched(n),
        ) => agree::law_outcomes_agree(first, a, m, last_a, b, n, last_b),
        (
            AnyScheduler::Gpreempt(a),
            AnyScheduler::Gpreempt(m),
            AnyScheduler::Gpreempt(b),
            AnyScheduler::Gpreempt(n),
        ) => agree::law_outcomes_agree(first, a, m, last_a, b, n, last_b),
        (
            AnyScheduler::Rtgpu(a),
            AnyScheduler::Rtgpu(m),
            AnyScheduler::Rtgpu(b),
            AnyScheduler::Rtgpu(n),
        ) => agree::law_outcomes_agree(first, a, m, last_a, b, n, last_b),
        (
            AnyScheduler::Match(a),
            AnyScheduler::Match(m),
            AnyScheduler::Match(b),
            AnyScheduler::Match(n),
        ) => agree::law_outcomes_agree(first, a, m, last_a, b, n, last_b),
        (
            AnyScheduler::GpuPreemptivePriority(a),
            AnyScheduler::GpuPreemptivePriority(m),
            AnyScheduler::GpuPreemptivePriority(b),
            AnyScheduler::GpuPreemptivePriority(n),
        ) => agree::law_outcomes_agree(first, a, m, last_a, b, n, last_b),
        _ => {},
    }
}

/// The name of an algorithm on the command line is read as that algorithm.
pub proof fn law_keys_are_read_back(kind: SchedulerKind)
    ensures
        kind_named(key_text(kind)) == Some(kind),
{
    reveal_strlit("fp");
    reveal_strlit("edf");
    reveal_strlit("edfvd");
    reveal_strlit("llf");
    reveal_strlit("heft");
    reveal_strlit("cpedf");
    reveal_strlit("federated");
    reveal_strlit("global-edf");
    reveal_strlit("global_edf");
    reveal_strlit("globaledf");
    reveal_strlit("gedf");
    reveal_strlit("gang");
    reveal_strlit("xsched");
    reveal_strlit("x-sched");
    reveal_strlit("gcaps");
    reveal_strlit("gpreempt");
    reveal_strlit("g-preempt");
    reveal_strlit("rtgpu");
    reveal_strlit("rt-gpu");
    reveal_strlit("match");
    reveal_strlit("gpu-preemptive-priority");
    reveal_strlit("gpu_preemptive_priority");
    reveal_strlit("gpu-preempt-priority");
    reveal_strlit("gpupp");
    match kind {
        SchedulerKind::Llf => {
            assert(!words::same_letter("llf"@[0], "edf"@[0]));
        },
        SchedulerKind::Cpedf => {
            assert(!words::same_letter("cpedf"@[0], "edfvd"@[0]));
        },
        SchedulerKind::Gang => {
            assert(!words::same_letter("gang"@[0], "heft"@[0]));
            assert(!words::same_letter("gang"@[1], "gedf"@[1]));
        },
        SchedulerKind::Gcaps => {
            assert(!words::same_letter("gcaps"@[0], "edfvd"@[0]));
            assert(!words::same_letter("gcaps"@[0], "cpedf"@[0]));
        },
        SchedulerKind::Rtgpu => {
            assert(!words::same_letter("rtgpu"@[0], "edfvd"@[0]));
            assert(!words::same_letter("rtgpu"@[0], "cpedf"@[0]));
            assert(!words::same_letter("rtgpu"@[0], "gcaps"@[0]));
        },
        SchedulerKind::Match => {
            assert(!words::same_letter("match"@[0], "edfvd"@[0]));
            assert(!words::same_letter("match"@[0], "cpedf"@[0]));
            assert(!words::same_letter("match"@[0], "gcaps"@[0]));
            assert(!words::same_letter("match"@[0], "rtgpu"@[0]));
        },
        _ => {},
    }
    assert(words::reads(key_text(kind), key_text(kind)));
}

} // verus!

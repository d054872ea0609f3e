//! Analysis modes: tags that are carried into reports, with the assumptions
//! behind them.

use crate::json;
use crate::replay::WorkloadInput;
use crate::words;
use vstd::prelude::*;
use vstd::string::*;

verus! {

/// An analysis profile.
#[derive(Debug, Clone, Copy, PartialEq, Eq, Structural)]
pub enum AnalysisMode {
    NoAnalysis,
    RtaUniprocessorFp,
    RtaUniformGlobalFpScaffold,
    UtilVectors,
    UniformRtaGlobalFp,
    ConditionalDag,
    Shape,
    OpenmpWcrt,
    SimsoScopeExtension,
}

/// The mode that a word names.
pub open spec fn mode_named(s: Seq<char>) -> Option<AnalysisMode> {
    if words::reads(s, "none"@) {
        Some(AnalysisMode::NoAnalysis)
    } else if words::reads(s, "rta-uniprocessor-fp"@)
        || words::reads(s, "rta_uniprocessor_fp"@)
        || words::reads(s, "uniprocessor-fp"@) {
        Some(AnalysisMode::RtaUniprocessorFp)
    } else if words::reads(s, "rta-uniform-global-fp-scaffold"@)
        || words::reads(s, "rta_uniform_global_fp_scaffold"@)
        || words::reads(s, "uniform-global-fp"@)
        || words::reads(s, "uniform-global-fp-scaffold"@) {
        Some(AnalysisMode::RtaUniformGlobalFpScaffold)
    } else if words::reads(s, "util-vectors"@)
        || words::reads(s, "util_vectors"@)
        || words::reads(s, "utilization-vectors"@) {
        Some(AnalysisMode::UtilVectors)
    } else if words::reads(s, "uniform-rta-global-fp"@)
        || words::reads(s, "uniform_rta_global_fp"@)
        || words::reads(s, "uniform-rta"@) {
        Some(AnalysisMode::UniformRtaGlobalFp)
    } else if words::reads(s, "conditional-dag"@) || words::reads(s, "conditional_dag"@) {
        Some(AnalysisMode::ConditionalDag)
    } else if words::reads(s, "shape"@) {
        Some(AnalysisMode::Shape)
    } else if words::reads(s, "openmp-wcrt"@) || words::reads(s, "openmp_wcrt"@) {
        Some(AnalysisMode::OpenmpWcrt)
    } else if words::reads(s, "simso-scope-extension"@)
        || words::reads(s, "simso_scope_extension"@)
        || words::reads(s, "simso-extension"@) {
        Some(AnalysisMode::SimsoScopeExtension)
    } else {
        None
    }
}

/// What words name.
pub open spec fn modes() -> spec_fn(Seq<char>) -> Option<AnalysisMode> {
    |s: Seq<char>| mode_named(s)
}

/// Reads the name of a mode.
fn read_mode(s: &str) -> (mode: Option<AnalysisMode>)
    ensures
        mode == mode_named(s@),
{
    if words::reads_as(s, "none") {
        Some(AnalysisMode::NoAnalysis)
    } else if words::reads_as(s, "rta-uniprocessor-fp")
        || words::reads_as(s, "rta_uniprocessor_fp")
        || words::reads_as(s, "uniprocessor-fp") {
        Some(AnalysisMode::RtaUniprocessorFp)
    } else if words::reads_as(s, "rta-uniform-global-fp-scaffold")
        || words::reads_as(s, "rta_uniform_global_fp_scaffold")
        || words::reads_as(s, "uniform-global-fp")
        || words::reads_as(s, "uniform-global-fp-scaffold") {
        Some(AnalysisMode::RtaUniformGlobalFpScaffold)
    } else if words::reads_as(s, "util-vectors")
        || words::reads_as(s, "util_vectors")
        || words::reads_as(s, "utilization-vectors") {
        Some(AnalysisMode::UtilVectors)
    } else if words::reads_as(s, "uniform-rta-global-fp")
        || words::reads_as(s, "uniform_rta_global_fp")
        || words::reads_as(s, "uniform-rta") {
        Some(AnalysisMode::UniformRtaGlobalFp)
    } else if words::reads_as(s, "conditional-dag") || words::reads_as(s, "conditional_dag") {
        Some(AnalysisMode::ConditionalDag)
    } else if words::reads_as(s, "shape") {
        Some(AnalysisMode::Shape)
    } else if words::reads_as(s, "openmp-wcrt") || words::reads_as(s, "openmp_wcrt") {
        Some(AnalysisMode::OpenmpWcrt)
    } else if words::reads_as(s, "simso-scope-extension")
        || words::reads_as(s, "simso_scope_extension")
        || words::reads_as(s, "simso-extension") {
        Some(AnalysisMode::SimsoScopeExtension)
    } else {
        None
    }
}

impl AnalysisMode {
    /// The name of the mode.
    pub open spec fn key_text(self) -> Seq<char> {
        match self {
            AnalysisMode::NoAnalysis => "none"@,
            AnalysisMode::RtaUniprocessorFp => "rta-uniprocessor-fp"@,
            AnalysisMode::RtaUniformGlobalFpScaffold => "rta-uniform-global-fp-scaffold"@,
            AnalysisMode::UtilVectors => "util-vectors"@,
            AnalysisMode::UniformRtaGlobalFp => "uniform-rta-global-fp"@,
            AnalysisMode::ConditionalDag => "conditional-dag"@,
            AnalysisMode::Shape => "shape"@,
            AnalysisMode::OpenmpWcrt => "openmp-wcrt"@,
            AnalysisMode::SimsoScopeExtension => "simso-scope-extension"@,
        }
    }

    /// What the mode covers.
    pub open spec fn scope_text(self) -> Seq<char> {
        match self {
            AnalysisMode::NoAnalysis => "none"@,
            AnalysisMode::RtaUniprocessorFp => "uniprocessor fixed-priority response-time analysis"@,
            AnalysisMode::RtaUniformGlobalFpScaffold => "uniform global fixed-priority response-time scaffold"@,
            AnalysisMode::UtilVectors => "utilization vectors"@,
            AnalysisMode::UniformRtaGlobalFp => "uniform global fixed-priority response-time analysis"@,
            AnalysisMode::ConditionalDag => "conditional DAG response-time analysis"@,
            AnalysisMode::Shape => "shape-style schedulability curve analysis"@,
            AnalysisMode::OpenmpWcrt => "openmp fixed-priority wcrt analysis"@,
            AnalysisMode::SimsoScopeExtension => "simso differential scope extension"@,
        }
    }

    /// The code and the wording of the assumption behind the mode.
    pub open spec fn assumption(self) -> Option<(Seq<char>, Seq<char>)> {
        match self {
            AnalysisMode::NoAnalysis => None,
            AnalysisMode::RtaUniprocessorFp => Some(
                (
                    "fp-uniprocessor-idealized"@,
                    "single-core FP approximation; no heterogeneous interference terms"@,
                ),
            ),
            AnalysisMode::RtaUniformGlobalFpScaffold => Some(
                (
                    "uniform-global-fp-scaffold"@,
                    "uniform global-FP scaffold model with conservative interference bounds"@,
                ),
            ),
            AnalysisMode::UtilVectors => Some(
                (
                    "util-vector-capacity"@,
                    "capacity-vector feasibility abstraction; does not model runtime jitter"@,
                ),
            ),
            AnalysisMode::UniformRtaGlobalFp => Some(
                (
                    "uniform-speed-abstraction"@,
                    "processors represented by normalized speed factors in uniform-RTA model"@,
                ),
            ),
            AnalysisMode::ConditionalDag => Some(
                (
                    "conditional-dag-boolean-branches"@,
                    "branch predicates are boolean and deterministic per scenario"@,
                ),
            ),
            AnalysisMode::Shape => Some(
                (
                    "shape-fixture-baseline"@,
                    "curve trend validated against deterministic fixture points and confidence bounds"@,
                ),
            ),
            AnalysisMode::OpenmpWcrt => Some(
                (
                    "openmp-fixed-pool"@,
                    "fixed-size OpenMP thread pool and fixed-point interference recurrence"@,
                ),
            ),
            AnalysisMode::SimsoScopeExtension => Some(
                (
                    "simso-adapter-scope"@,
                    "adapter-level scope expansion metadata; no external simso run in CLI mode"@,
                ),
            ),
        }
    }

    /// Names the mode.
    pub fn key(self) -> (key: &'static str)
        ensures
            key@ == self.key_text(),
    {
        match self {
            AnalysisMode::NoAnalysis => "none",
            AnalysisMode::RtaUniprocessorFp => "rta-uniprocessor-fp",
            AnalysisMode::RtaUniformGlobalFpScaffold => "rta-uniform-global-fp-scaffold",
            AnalysisMode::UtilVectors => "util-vectors",
            AnalysisMode::UniformRtaGlobalFp => "uniform-rta-global-fp",
            AnalysisMode::ConditionalDag => "conditional-dag",
            AnalysisMode::Shape => "shape",
            AnalysisMode::OpenmpWcrt => "openmp-wcrt",
            AnalysisMode::SimsoScopeExtension => "simso-scope-extension",
        }
    }

    /// Tells what the mode covers.
    pub fn scope(self) -> (scope: &'static str)
        ensures
            scope@ == self.scope_text(),
    {
        match self {
            AnalysisMode::NoAnalysis => "none",
            AnalysisMode::RtaUniprocessorFp => "uniprocessor fixed-priority response-time analysis",
            AnalysisMode::RtaUniformGlobalFpScaffold => "uniform global fixed-priority response-time scaffold",
            AnalysisMode::UtilVectors => "utilization vectors",
            AnalysisMode::UniformRtaGlobalFp => "uniform global fixed-priority response-time analysis",
            AnalysisMode::ConditionalDag => "conditional DAG response-time analysis",
            AnalysisMode::Shape => "shape-style schedulability curve analysis",
            AnalysisMode::OpenmpWcrt => "openmp fixed-priority wcrt analysis",
            AnalysisMode::SimsoScopeExtension => "simso differential scope extension",
        }
    }

    /// Gives the code and the wording of the assumption behind the mode.
    fn stated_assumption(self) -> (assumption: Option<(&'static str, &'static str)>)
        ensures
            match assumption {
                Some((code, detail)) => self.assumption() == Some((code@, detail@)),
                None => self.assumption() is None,
            },
    {
        match self {
            AnalysisMode::NoAnalysis => None,
            AnalysisMode::RtaUniprocessorFp => Some(
                (
                    "fp-uniprocessor-idealized",
                    "single-core FP approximation; no heterogeneous interference terms",
                ),
            ),
            AnalysisMode::RtaUniformGlobalFpScaffold => Some(
                (
                    "uniform-global-fp-scaffold",
                    "uniform global-FP scaffold model with conservative interference bounds",
                ),
            ),
            AnalysisMode::UtilVectors => Some(
                (
                    "util-vector-capacity",
                    "capacity-vector feasibility abstraction; does not model runtime jitter",
                ),
            ),
            AnalysisMode::UniformRtaGlobalFp => Some(
                (
                    "uniform-speed-abstraction",
                    "processors represented by normalized speed factors in uniform-RTA model",
                ),
            ),
            AnalysisMode::ConditionalDag => Some(
                (
                    "conditional-dag-boolean-branches",
                    "branch predicates are boolean and deterministic per scenario",
                ),
            ),
            AnalysisMode::Shape => Some(
                (
                    "shape-fixture-baseline",
                    "curve trend validated against deterministic fixture points and confidence bounds",
                ),
            ),
            AnalysisMode::OpenmpWcrt => Some(
                (
                    "openmp-fixed-pool",
                    "fixed-size OpenMP thread pool and fixed-point interference recurrence",
                ),
            ),
            AnalysisMode::SimsoScopeExtension => Some(
                (
                    "simso-adapter-scope",
                    "adapter-level scope expansion metadata; no external simso run in CLI mode",
                ),
            ),
        }
    }
}

/// The modes that a list names, or what is wrong with it.
pub open spec fn mode_list(s: Seq<char>) -> Result<Seq<AnalysisMode>, Seq<char>> {
    match words::values(words::words(s), modes()) {
        Err(i) => Err("unknown analysis mode: "@ + words::words(s)[i]),
        Ok(known) => if known.len() == 0 {
            Err("analysis mode list is empty"@)
        } else {
            Ok(known)
        },
    }
}

/// Reads a list of modes that is separated by commas.
pub fn parse_analysis_mode_list(s: &str) -> (list: Result<Vec<AnalysisMode>, String>)
    ensures
        match (list, mode_list(s@)) {
            (Ok(out), Ok(known)) => out@ == known,
            (Err(e), Err(text)) => e@ == text,
            _ => false,
        },
{
    let tokens: Vec<&str> = words::split_words(s);
    let ghost all = words::words(s@);
    let mut out: Vec<AnalysisMode> = Vec::new();
    let mut i: usize = 0;
    proof {
        assert(all.take(0) =~= Seq::empty());
        assert(out@ =~= Seq::empty());
    }
    while i < tokens.len()
        invariant
            i <= tokens@.len(),
            all == words::texts(tokens@),
            all == words::words(s@),
            words::values(all.take(i as int), modes()) == Ok::<Seq<AnalysisMode>, int>(out@),
        decreases tokens@.len() - i,
    {
        let token: &str = tokens[i];
        proof {
            assert(all.take(i as int + 1).drop_last() =~= all.take(i as int));
            assert(all.take(i as int + 1).last() == token@);
        }
        match read_mode(token) {
            Some(mode) => {
                out.push(mode);
            },
            None => {
                proof {
                    words::lemma_values_fail(all, modes(), i as int + 1);
                }
                let mut message: String = String::from_str("unknown analysis mode: ");
                message.append(token);
                return Err(message);
            },
        }
        i = i + 1;
    }
    proof {
        assert(all.take(i as int) =~= all);
    }
    if out.len() == 0 {
        return Err(String::from_str("analysis mode list is empty"));
    }
    Ok(out)
}

/// What a report says of an analysis mode.
#[derive(Debug)]
pub struct AnalysisMetadataSnapshot {
    pub scope: String,
    /// The assumptions as a JSON array.
    pub assumptions_json: String,
    pub assumption_count: usize,
}

/// The assumptions behind a mode.
pub open spec fn assumptions(mode: AnalysisMode) -> Seq<(Seq<char>, Seq<char>)> {
    match mode.assumption() {
        Some(assumption) => seq![assumption],
        None => Seq::empty(),
    }
}

/// Describes an analysis mode for reports.
pub fn analysis_metadata_snapshot(mode: AnalysisMode) -> (snapshot: AnalysisMetadataSnapshot)
    ensures
        snapshot.scope@ == mode.scope_text(),
        snapshot.assumptions_json@ == json::assumptions_text(assumptions(mode)),
        snapshot.assumption_count == assumptions(mode).len(),
{
    let mut list: Vec<(&str, &str)> = Vec::new();
    match mode.stated_assumption() {
        Some(assumption) => {
            list.push(assumption);
        },
        None => {},
    }
    proof {
        assert(json::texts(list@) =~= assumptions(mode));
    }
    AnalysisMetadataSnapshot {
        scope: String::from_str(mode.scope()),
        assumptions_json: json::or_null(json::write_assumptions(&list)),
        assumption_count: list.len(),
    }
}

/// Whether a workload comes from an OpenMP program.
pub open spec fn is_openmp(workload: &WorkloadInput) -> bool {
    workload matches WorkloadInput::Replay(replay) && replay.metadata.source matches Some(source)
        && words::has_within(source@, "openmp"@)
}

/// Checks that a mode can be used with a workload: one of them is for OpenMP
/// programs only.
pub fn validate_analysis_mode_for_workload(mode: AnalysisMode, workload: &WorkloadInput) -> (result:
    Result<(), String>)
    ensures
        match result {
            Ok(_) => !(mode is OpenmpWcrt) || is_openmp(workload),
            Err(e) => mode is OpenmpWcrt && !is_openmp(workload) && e@ == "analysis mode '"@
                + mode.key_text() + "' requires --openmp-specialized-json workload input"@,
        },
{
    if mode != AnalysisMode::OpenmpWcrt {
        return Ok(());
    }
    let openmp: bool = match workload {
        WorkloadInput::Replay(replay) => match &replay.metadata.source {
            Some(source) => words::contains(source.as_str(), "openmp"),
            None => false,
        },
        WorkloadInput::Synthetic { .. } => false,
    };
    if openmp {
        return Ok(());
    }
    let mut message: String = String::from_str("analysis mode '");
    message.append(mode.key());
    message.append("' requires --openmp-specialized-json workload input");
    Err(message)
}

/// The name of a mode is read as that mode.
pub proof fn law_keys_are_read_back(mode: AnalysisMode)
    ensures
        mode_named(mode.key_text()) == Some(mode),
{
    reveal_strlit("none");
    reveal_strlit("rta-uniprocessor-fp");
    reveal_strlit("rta_uniprocessor_fp");
    reveal_strlit("uniprocessor-fp");
    reveal_strlit("rta-uniform-global-fp-scaffold");
    reveal_strlit("rta_uniform_global_fp_scaffold");
    reveal_strlit("uniform-global-fp");
    reveal_strlit("uniform-global-fp-scaffold");
    reveal_strlit("util-vectors");
    reveal_strlit("util_vectors");
    reveal_strlit("utilization-vectors");
    reveal_strlit("uniform-rta-global-fp");
    reveal_strlit("uniform_rta_global_fp");
    reveal_strlit("uniform-rta");
    reveal_strlit("conditional-dag");
    reveal_strlit("conditional_dag");
    reveal_strlit("shape");
    reveal_strlit("openmp-wcrt");
    reveal_strlit("openmp_wcrt");
    reveal_strlit("simso-scope-extension");
    reveal_strlit("simso_scope_extension");
    reveal_strlit("simso-extension");
    match mode {
        AnalysisMode::ConditionalDag => {
            assert(!words::same_letter("conditional-dag"@[0], "uniprocessor-fp"@[0]));
        },
        AnalysisMode::OpenmpWcrt => {
            assert(!words::same_letter("openmp-wcrt"@[0], "uniform-rta"@[0]));
        },
        AnalysisMode::SimsoScopeExtension => {
            assert(!words::same_letter("simso-scope-extension"@[0], "uniform-rta-global-fp"@[0]));
            assert(!words::same_letter("simso-scope-extension"@[0], "uniform_rta_global_fp"@[0]));
        },
        _ => {},
    }
    assert(words::reads(mode.key_text(), mode.key_text()));
}

} // verus!

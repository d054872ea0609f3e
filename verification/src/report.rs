//! The report of a single run, line by line.

use crate::analysis;
use crate::analysis::{AnalysisMetadataSnapshot, AnalysisMode};
use crate::catalog;
use crate::catalog::SchedulerKind;
use crate::engine::SimResult;
use crate::json;
use crate::replay;
use crate::replay::{WorkloadInput, WorkloadMetadataSnapshot};
use crate::text;
use vstd::prelude::*;
use vstd::string::*;

verus! {

/// Figures with a fractional part, as text.
#[derive(Debug)]
pub struct Fractions {
    pub miss_ratio: String,
    pub avg_response_ns: String,
    pub bus_contention_ratio: String,
    pub energy_joules: String,
}

/// Lines as texts.
pub open spec fn line_texts(lines: Seq<String>) -> Seq<Seq<char>> {
    Seq::new(lines.len(), |i: int| lines[i]@)
}

/// What is said of one approximation.
pub open spec fn assumption_line(assumption: (Seq<char>, Seq<char>)) -> Seq<char> {
    "  - "@ + assumption.0 + ": "@ + assumption.1
}

/// What is said of approximations, nothing where there are none.
pub open spec fn assumption_texts(list: Seq<(Seq<char>, Seq<char>)>) -> Seq<Seq<char>> {
    if list.len() == 0 {
        Seq::empty()
    } else {
        seq![
            "OpenMP approximation assumptions ("@ + text::decimal(list.len()) + "):"@,
        ] + Seq::new(list.len(), |i: int| assumption_line(list[i]))
    }
}

/// A line that stands only where there is something to list.
pub open spec fn if_any(count: nat, label: Seq<char>, json: Seq<char>) -> Seq<Seq<char>> {
    if count > 0 {
        seq![label + json]
    } else {
        Seq::empty()
    }
}

/// What is said of the algorithm, the analysis mode and the workload.
pub open spec fn heading(
    kind: SchedulerKind,
    mode: AnalysisMode,
    workload: &WorkloadMetadataSnapshot,
) -> Seq<Seq<char>> {
    let behind = analysis::assumptions(mode);
    let made = workload.assumption_count as nat;
    seq![
        "HPRSS Simulation Summary"@,
        "algorithm      : "@ + catalog::label_text(kind),
        "algorithm_key  : "@ + catalog::key_text(kind),
        "algorithm_family: "@ + catalog::family_text(kind),
        "analysis_mode  : "@ + mode.key_text(),
        "analysis_scope : "@ + mode.scope_text(),
        "analysis_assumption_count: "@ + text::decimal(behind.len()),
    ] + if_any(behind.len(), "analysis_assumptions: "@, json::assumptions_text(behind)) + seq![
        "workload_source: "@ + workload.source@,
        "approximation_assumption_count: "@ + text::decimal(made),
    ] + if_any(made, "approximation_assumptions: "@, workload.assumptions_json@)
}

/// A truth value as text.
pub open spec fn truth(value: bool) -> Seq<char> {
    if value {
        "true"@
    } else {
        "false"@
    }
}

/// What is said of the outcome.
pub open spec fn figures(result: &SimResult, fractions: &Fractions, wall_us: u64) -> Seq<
    Seq<char>,
> {
    seq![
        "total_jobs      : "@ + text::decimal(result.total_jobs as nat),
        "completed_jobs  : "@ + text::decimal(result.completed_jobs as nat),
        "deadline_misses : "@ + text::decimal(result.deadline_misses as nat),
        "miss_ratio      : "@ + fractions.miss_ratio@,
        "schedulable     : "@ + truth(result.schedulable),
        "makespan_ns     : "@ + text::decimal(result.makespan as nat),
        "avg_response_ns : "@ + fractions.avg_response_ns@,
        "worst_response_ns: "@ + text::decimal(result.worst_response_time as nat),
        "transfer_overhead_ns: "@ + text::decimal(result.transfer_overhead as nat),
        "preemption_count : "@ + text::decimal(result.preemption_count as nat),
        "migration_count  : "@ + text::decimal(result.migration_count as nat),
        "bus_contention_ratio: "@ + fractions.bus_contention_ratio@,
        "energy_total_joules: "@ + fractions.energy_joules@,
        "events_processed: "@ + text::decimal(result.events_processed as nat),
        "wall_time_us    : "@ + text::decimal(wall_us as nat),
    ]
}

/// Appends a line of a label and a text.
fn push_text(lines: &mut Vec<String>, label: &str, value: &str)
    ensures
        line_texts(final(lines)@) == line_texts(old(lines)@).push(label@ + value@),
{
    let mut line: String = String::from_str(label);
    line.append(value);
    lines.push(line);
    proof {
        assert(line_texts(lines@) =~= line_texts(old(lines)@).push(label@ + value@));
    }
}

/// Appends a line of a label and a number.
fn push_number(lines: &mut Vec<String>, label: &str, value: u64)
    ensures
        line_texts(final(lines)@) == line_texts(old(lines)@).push(
            label@ + text::decimal(value as nat),
        ),
{
    let mut line: String = String::from_str(label);
    text::push_decimal(&mut line, value as u128);
    lines.push(line);
    proof {
        assert(line_texts(lines@) =~= line_texts(old(lines)@).push(
            label@ + text::decimal(value as nat),
        ));
    }
}

/// Lists the approximations behind a workload.
pub fn assumption_lines(workload: &WorkloadInput) -> (lines: Vec<String>)
    ensures
        line_texts(lines@) == assumption_texts(replay::assumptions(workload)),
{
    let list: Vec<(&str, &str)> = replay::list_assumptions(workload);
    let ghost all = replay::assumptions(workload);
    let mut lines: Vec<String> = Vec::new();
    proof {
        assert(json::texts(list@).len() == list@.len());
    }
    if list.len() == 0 {
        proof {
            assert(line_texts(lines@) =~= assumption_texts(all));
        }
        return lines;
    }
    let mut first: String = String::from_str("OpenMP approximation assumptions (");
    text::push_decimal(&mut first, list.len() as u128);
    first.append("):");
    let ghost head = first@;
    lines.push(first);
    let mut i: usize = 0;
    proof {
        assert(line_texts(lines@) =~= seq![head] + Seq::new(0, |k: int| assumption_line(all[k])));
    }
    while i < list.len()
        invariant
            i <= list@.len(),
            all == json::texts(list@),
            line_texts(lines@) == seq![head] + Seq::new(
                i as nat,
                |k: int| assumption_line(all[k]),
            ),
        decreases list@.len() - i,
    {
        let (code, detail) = list[i];
        let mut line: String = String::from_str("  - ");
        line.append(code);
        line.append(": ");
        line.append(detail);
        let ghost before = line_texts(lines@);
        proof {
            assert(all[i as int] == (code@, detail@));
            assert(line@ == assumption_line(all[i as int]));
        }
        lines.push(line);
        proof {
            assert(line_texts(lines@) =~= before.push(assumption_line(all[i as int])));
            assert(line_texts(lines@) =~= seq![head] + Seq::new(
                (i + 1) as nat,
                |k: int| assumption_line(all[k]),
            ));
        }
        i = i + 1;
    }
    lines
}

/// Describes the algorithm, the analysis mode and the workload of a run.
fn push_heading(
    lines: &mut Vec<String>,
    kind: SchedulerKind,
    mode: AnalysisMode,
    workload: &WorkloadMetadataSnapshot,
)
    ensures
        line_texts(final(lines)@) == line_texts(old(lines)@) + heading(kind, mode, workload),
{
    let ghost before = line_texts(lines@);
    let meta: AnalysisMetadataSnapshot = analysis::analysis_metadata_snapshot(mode);
    push_text(lines, "HPRSS Simulation Summary", "");
    proof {
        reveal_strlit("");
        assert("HPRSS Simulation Summary"@ + ""@ =~= "HPRSS Simulation Summary"@);
    }
    push_text(lines, "algorithm      : ", catalog::scheduler_label(kind));
    push_text(lines, "algorithm_key  : ", catalog::scheduler_key(kind));
    push_text(lines, "algorithm_family: ", catalog::scheduler_family(kind));
    push_text(lines, "analysis_mode  : ", mode.key());
    push_text(lines, "analysis_scope : ", meta.scope.as_str());
    push_number(lines, "analysis_assumption_count: ", meta.assumption_count as u64);
    if meta.assumption_count > 0 {
        push_text(lines, "analysis_assumptions: ", meta.assumptions_json.as_str());
    }
    push_text(lines, "workload_source: ", workload.source.as_str());
    push_number(lines, "approximation_assumption_count: ", workload.assumption_count as u64);
    if workload.assumption_count > 0 {
        push_text(lines, "approximation_assumptions: ", workload.assumptions_json.as_str());
    }
    proof {
        assert(line_texts(lines@) =~= before + heading(kind, mode, workload));
    }
}

/// Writes the report of a run.
pub fn summary_lines(
    kind: SchedulerKind,
    mode: AnalysisMode,
    workload: &WorkloadMetadataSnapshot,
    result: &SimResult,
    fractions: &Fractions,
    wall_us: u64,
) -> (lines: Vec<String>)
    ensures
        line_texts(lines@) == heading(kind, mode, workload) + figures(result, fractions, wall_us),
{
    let mut lines: Vec<String> = Vec::new();
    proof {
        assert(line_texts(lines@) + heading(kind, mode, workload) =~= heading(
            kind,
            mode,
            workload,
        ));
    }
    push_heading(&mut lines, kind, mode, workload);
    push_number(&mut lines, "total_jobs      : ", result.total_jobs);
    push_number(&mut lines, "completed_jobs  : ", result.completed_jobs);
    push_number(&mut lines, "deadline_misses : ", result.deadline_misses);
    push_text(&mut lines, "miss_ratio      : ", fractions.miss_ratio.as_str());
    push_text(
        &mut lines,
        "schedulable     : ",
        if result.schedulable {
            "true"
        } else {
            "false"
        },
    );
    push_number(&mut lines, "makespan_ns     : ", result.makespan);
    push_text(&mut lines, "avg_response_ns : ", fractions.avg_response_ns.as_str());
    push_number(&mut lines, "worst_response_ns: ", result.worst_response_time);
    push_number(&mut lines, "transfer_overhead_ns: ", result.transfer_overhead);
    push_number(&mut lines, "preemption_count : ", result.preemption_count);
    push_number(&mut lines, "migration_count  : ", result.migration_count);
    push_text(&mut lines, "bus_contention_ratio: ", fractions.bus_contention_ratio.as_str());
    push_text(&mut lines, "energy_total_joules: ", fractions.energy_joules.as_str());
    push_number(&mut lines, "events_processed: ", result.events_processed);
    push_number(&mut lines, "wall_time_us    : ", wall_us);
    proof {
        assert(line_texts(lines@) =~= heading(kind, mode, workload) + figures(
            result,
            fractions,
            wall_us,
        ));
    }
    lines
}

} // verus!

//! Reports of single runs.

use hprss_sim::analysis::AnalysisMode;
use hprss_sim::catalog::SchedulerKind;
use hprss_sim::engine::{SimConfig, SimEngine};
use hprss_sim::replay::{
    workload_metadata_snapshot, ReplayAssumption, ReplayMetadata, ReplayWorkload, WorkloadInput,
};
use hprss_sim::report::{assumption_lines, summary_lines, Fractions};

fn recorded() -> WorkloadInput {
    WorkloadInput::Replay(ReplayWorkload {
        tasks: vec![],
        jobs: vec![],
        metadata: ReplayMetadata {
            source: Some("openmp".to_string()),
            assumptions: vec![
                ReplayAssumption {
                    code: "a".to_string(),
                    detail: "first".to_string(),
                },
                ReplayAssumption {
                    code: "b".to_string(),
                    detail: "second".to_string(),
                },
            ],
        },
    })
}

#[test]
fn approximations_are_listed() {
    assert_eq!(
        assumption_lines(&recorded()),
        vec![
            "OpenMP approximation assumptions (2):",
            "  - a: first",
            "  - b: second",
        ]
    );
    assert!(assumption_lines(&WorkloadInput::Synthetic { tasks: vec![] }).is_empty());
}

fn fractions() -> Fractions {
    Fractions {
        miss_ratio: "0.000000".to_string(),
        avg_response_ns: "0.000".to_string(),
        bus_contention_ratio: "0.250000".to_string(),
        energy_joules: "0.000000001".to_string(),
    }
}

#[test]
fn reports_hold_a_heading_and_figures() {
    let config = SimConfig {
        duration_ns: 1,
        seed: 0,
    };
    let result = SimEngine::new(config, vec![], vec![], vec![]).summary();
    let meta = workload_metadata_snapshot(&WorkloadInput::Synthetic { tasks: vec![] });
    let lines = summary_lines(
        SchedulerKind::Fp,
        AnalysisMode::NoAnalysis,
        &meta,
        &result,
        &fractions(),
        77,
    );
    assert_eq!(
        lines,
        vec![
            "HPRSS Simulation Summary",
            "algorithm      : FP-Het",
            "algorithm_key  : fp",
            "algorithm_family: fixed-priority",
            "analysis_mode  : none",
            "analysis_scope : none",
            "analysis_assumption_count: 0",
            "workload_source: synthetic",
            "approximation_assumption_count: 0",
            "total_jobs      : 0",
            "completed_jobs  : 0",
            "deadline_misses : 0",
            "miss_ratio      : 0.000000",
            "schedulable     : true",
            "makespan_ns     : 0",
            "avg_response_ns : 0.000",
            "worst_response_ns: 0",
            "transfer_overhead_ns: 0",
            "preemption_count : 0",
            "migration_count  : 0",
            "bus_contention_ratio: 0.250000",
            "energy_total_joules: 0.000000001",
            "events_processed: 0",
            "wall_time_us    : 77",
        ]
    );
}

#[test]
fn reports_list_assumptions_where_there_are_some() {
    let config = SimConfig {
        duration_ns: 1,
        seed: 0,
    };
    let result = SimEngine::new(config, vec![], vec![], vec![]).summary();
    let meta = workload_metadata_snapshot(&recorded());
    let lines = summary_lines(
        SchedulerKind::GlobalEdf,
        AnalysisMode::OpenmpWcrt,
        &meta,
        &result,
        &fractions(),
        0,
    );
    assert_eq!(lines[6], "analysis_assumption_count: 1");
    assert!(lines[7].starts_with("analysis_assumptions: [{\"code\":\"openmp-fixed-pool\""));
    assert_eq!(lines[8], "workload_source: openmp");
    assert_eq!(lines[9], "approximation_assumption_count: 2");
    assert_eq!(
        lines[10],
        "approximation_assumptions: [{\"code\":\"a\",\"detail\":\"first\"},\
         {\"code\":\"b\",\"detail\":\"second\"}]"
    );
    assert_eq!(lines.len(), 26);
}

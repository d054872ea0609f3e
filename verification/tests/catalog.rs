//! Scheduler and analysis-mode names.

use hprss_sim::analysis::{
    analysis_metadata_snapshot, parse_analysis_mode_list, validate_analysis_mode_for_workload,
    AnalysisMode,
};
use hprss_sim::catalog::{
    build_scheduler, parse_scheduler_list, scheduler_family, scheduler_key, scheduler_label,
    SchedulerKind,
};
use hprss_sim::replay::{ReplayMetadata, ReplayWorkload, WorkloadInput};

const KINDS: [SchedulerKind; 15] = [
    SchedulerKind::Fp,
    SchedulerKind::Edf,
    SchedulerKind::Edfvd,
    SchedulerKind::Llf,
    SchedulerKind::Heft,
    SchedulerKind::Cpedf,
    SchedulerKind::Federated,
    SchedulerKind::GlobalEdf,
    SchedulerKind::Gang,
    SchedulerKind::Xsched,
    SchedulerKind::Gcaps,
    SchedulerKind::Gpreempt,
    SchedulerKind::Rtgpu,
    SchedulerKind::Match,
    SchedulerKind::GpuPreemptivePriority,
];

#[test]
fn parse_scheduler_list_supports_multiple_algorithms() {
    let parsed = parse_scheduler_list(
        "fp,edf,edfvd,llf,heft,cpedf,federated,global-edf,gang,xsched,gcaps,gpreempt,rtgpu,match,gpu-preemptive-priority",
    )
    .expect("parse should succeed");
    assert_eq!(
        parsed,
        vec![
            SchedulerKind::Fp,
            SchedulerKind::Edf,
            SchedulerKind::Edfvd,
            SchedulerKind::Llf,
            SchedulerKind::Heft,
            SchedulerKind::Cpedf,
            SchedulerKind::Federated,
            SchedulerKind::GlobalEdf,
            SchedulerKind::Gang,
            SchedulerKind::Xsched,
            SchedulerKind::Gcaps,
            SchedulerKind::Gpreempt,
            SchedulerKind::Rtgpu,
            SchedulerKind::Match,
            SchedulerKind::GpuPreemptivePriority
        ]
    );
}

#[test]
fn parse_scheduler_list_rejects_unknown_name() {
    let err = parse_scheduler_list("fp,abc").expect_err("parse should fail");
    assert!(err.contains("unknown scheduler"));
}

#[test]
fn parse_analysis_mode_list_supports_aliases() {
    let parsed = parse_analysis_mode_list(
        "none,rta-uniprocessor-fp,uniform-global-fp-scaffold,rta_uniform_global_fp_scaffold,util-vectors,uniform-rta,conditional-dag,shape,openmp_wcrt,simso-extension",
    )
    .expect("parse should succeed");
    assert_eq!(
        parsed,
        vec![
            AnalysisMode::NoAnalysis,
            AnalysisMode::RtaUniprocessorFp,
            AnalysisMode::RtaUniformGlobalFpScaffold,
            AnalysisMode::RtaUniformGlobalFpScaffold,
            AnalysisMode::UtilVectors,
            AnalysisMode::UniformRtaGlobalFp,
            AnalysisMode::ConditionalDag,
            AnalysisMode::Shape,
            AnalysisMode::OpenmpWcrt,
            AnalysisMode::SimsoScopeExtension
        ]
    );
}

#[test]
fn scheduler_keys_are_read_back() {
    for kind in KINDS {
        assert_eq!(parse_scheduler_list(scheduler_key(kind)), Ok(vec![kind]));
    }
}

#[test]
fn scheduler_lists_skip_blanks_and_case() {
    assert_eq!(
        parse_scheduler_list(" FP ,, Edf,"),
        Ok(vec![SchedulerKind::Fp, SchedulerKind::Edf])
    );
    assert_eq!(
        parse_scheduler_list(" , "),
        Err("scheduler list is empty".to_string())
    );
    assert_eq!(
        parse_scheduler_list("fp, Abc ,def"),
        Err("unknown scheduler: Abc".to_string())
    );
}

#[test]
fn built_schedulers_carry_their_label() {
    for kind in KINDS {
        match build_scheduler(kind) {
            Some(scheduler) => assert_eq!(scheduler.name(), scheduler_label(kind)),
            None => assert_eq!(kind, SchedulerKind::Gcaps),
        }
    }
}

#[test]
fn schedulers_have_a_family() {
    assert_eq!(scheduler_family(SchedulerKind::Fp), "fixed-priority");
    assert_eq!(scheduler_family(SchedulerKind::Edf), "deadline-driven");
    assert_eq!(scheduler_label(SchedulerKind::Edfvd), "EDF-VD-Het");
}

#[test]
fn analysis_mode_keys_are_read_back() {
    for mode in [
        AnalysisMode::NoAnalysis,
        AnalysisMode::RtaUniprocessorFp,
        AnalysisMode::RtaUniformGlobalFpScaffold,
        AnalysisMode::UtilVectors,
        AnalysisMode::UniformRtaGlobalFp,
        AnalysisMode::ConditionalDag,
        AnalysisMode::Shape,
        AnalysisMode::OpenmpWcrt,
        AnalysisMode::SimsoScopeExtension,
    ] {
        assert_eq!(parse_analysis_mode_list(mode.key()), Ok(vec![mode]));
    }
    assert_eq!(
        parse_analysis_mode_list(""),
        Err("analysis mode list is empty".to_string())
    );
    assert_eq!(
        parse_analysis_mode_list("none,magic"),
        Err("unknown analysis mode: magic".to_string())
    );
}

#[test]
fn analysis_metadata_names_scope_and_assumptions() {
    let none = analysis_metadata_snapshot(AnalysisMode::NoAnalysis);
    assert_eq!(none.assumptions_json, "[]");
    assert_eq!(none.assumption_count, 0);

    let rta = analysis_metadata_snapshot(AnalysisMode::RtaUniprocessorFp);
    assert_eq!(rta.scope, AnalysisMode::RtaUniprocessorFp.scope());
    assert_eq!(rta.assumption_count, 1);
    assert_eq!(
        rta.assumptions_json,
        "[{\"code\":\"fp-uniprocessor-idealized\",\"detail\":\"single-core FP approximation; \
         no heterogeneous interference terms\"}]"
    );
    let parsed: serde_json::Value = serde_json::from_str(&rta.assumptions_json).unwrap();
    assert_eq!(parsed.as_array().map(|list| list.len()), Some(1));
    assert!(parsed[0]["code"].is_string());
    assert!(parsed[0]["detail"].is_string());
}

fn recorded(source: Option<&str>) -> WorkloadInput {
    WorkloadInput::Replay(ReplayWorkload {
        tasks: vec![],
        jobs: vec![],
        metadata: ReplayMetadata {
            source: source.map(|s| s.to_string()),
            assumptions: vec![],
        },
    })
}

#[test]
fn openmp_analysis_needs_an_openmp_workload() {
    let message =
        "analysis mode 'openmp-wcrt' requires --openmp-specialized-json workload input".to_string();
    for workload in [
        WorkloadInput::Synthetic { tasks: vec![] },
        recorded(None),
        recorded(Some("csv")),
    ] {
        assert_eq!(
            validate_analysis_mode_for_workload(AnalysisMode::OpenmpWcrt, &workload),
            Err(message.clone())
        );
        assert_eq!(
            validate_analysis_mode_for_workload(AnalysisMode::Shape, &workload),
            Ok(())
        );
    }
    assert_eq!(
        validate_analysis_mode_for_workload(
            AnalysisMode::OpenmpWcrt,
            &recorded(Some("openmp-specialized"))
        ),
        Ok(())
    );
}

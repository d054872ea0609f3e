//! Ranges, counts and the experiments of a sweep.

use hprss_sim::analysis::AnalysisMode;
use hprss_sim::catalog::SchedulerKind;
use hprss_sim::engine::{SimConfig, SimEngine};
use hprss_sim::sweep::{
    parse_range_u64, parse_task_counts, plan_sweep, schedulable_count, shows_progress,
    sweep_points, sweep_row, SweepPoint,
};
use hprss_sim::words::{read_number, split, split_words, trim, NumberError};

#[test]
fn ranges_hold_both_ends() {
    assert_eq!(parse_range_u64("3:6"), Ok(vec![3, 4, 5, 6]));
    assert_eq!(parse_range_u64("6:3"), Ok(vec![]));
    assert_eq!(parse_range_u64("+5"), Ok(vec![5]));
    assert_eq!(
        parse_range_u64("18446744073709551615:18446744073709551615"),
        Ok(vec![u64::MAX])
    );
}

#[test]
fn faulty_ranges_are_refused() {
    assert_eq!(
        parse_range_u64("1:2:3"),
        Err("expected format: start:end or single value".to_string())
    );
    assert_eq!(
        parse_range_u64(":4"),
        Err("cannot parse integer from empty string".to_string())
    );
    assert_eq!(
        parse_range_u64("1:x"),
        Err("invalid digit found in string".to_string())
    );
    assert_eq!(
        parse_range_u64("18446744073709551616"),
        Err("number too large to fit in target type".to_string())
    );
}

#[test]
fn task_counts_are_trimmed() {
    assert_eq!(parse_task_counts("10, 20 ,30"), Ok(vec![10, 20, 30]));
    assert_eq!(parse_task_counts("10,,30"), Err(NumberError::Empty));
    assert_eq!(parse_task_counts("10,-1"), Err(NumberError::InvalidDigit));
}

#[test]
fn numbers_are_read_as_the_standard_library_reads_them() {
    for text in ["", "+", "-", "0", "007", "+12", "1 2", "255", "256", "99999999999999999999"] {
        let expected: Result<u8, String> = text.parse::<u8>().map_err(|e| e.to_string());
        let read = read_number(text, u8::MAX as u64)
            .map(|n| n as u8)
            .map_err(|e| e.describe().to_string());
        assert_eq!(read, expected, "{text}");
    }
}

#[test]
fn texts_are_cut_as_the_standard_library_cuts_them() {
    for text in ["", " ", "a", " a,b ,, c\t", ",", "\u{a0}x\u{2003}"] {
        assert_eq!(trim(text), text.trim());
        assert_eq!(split(text, ','), text.split(',').collect::<Vec<&str>>());
        assert_eq!(
            split_words(text),
            text.split(',')
                .map(|t| t.trim())
                .filter(|t| !t.is_empty())
                .collect::<Vec<&str>>()
        );
    }
}

#[test]
fn a_sweep_covers_every_combination_once() {
    let schedulers = vec![SchedulerKind::Fp, SchedulerKind::Edf];
    let modes = vec![AnalysisMode::NoAnalysis, AnalysisMode::Shape];
    let points = sweep_points(2, &vec![5, 10], &vec![1, 2, 3], &schedulers, &modes);
    assert_eq!(points.len(), 2 * 2 * 3 * 2 * 2);
    for (i, point) in points.iter().enumerate() {
        assert!(!points[..i].contains(point));
    }
    assert_eq!(
        points[0],
        SweepPoint {
            utilization: 0,
            task_count: 5,
            seed: 1,
            scheduler: SchedulerKind::Fp,
            analysis_mode: AnalysisMode::NoAnalysis,
        }
    );
    assert_eq!(points[1].analysis_mode, AnalysisMode::Shape);
    assert_eq!(points[2].scheduler, SchedulerKind::Edf);
    assert_eq!(points[4].seed, 2);
    assert_eq!(points[12].task_count, 10);
    assert_eq!(points[24].utilization, 1);
    assert!(sweep_points(2, &vec![5], &vec![], &schedulers, &modes).is_empty());
}

#[test]
fn a_plan_reads_all_arguments() {
    let plan = plan_sweep("10,20", "1:3", "fp,edf", "none,shape").unwrap();
    assert_eq!(plan.task_counts, vec![10, 20]);
    assert_eq!(plan.seeds, vec![1, 2, 3]);
    assert_eq!(plan.schedulers, vec![SchedulerKind::Fp, SchedulerKind::Edf]);
    assert_eq!(
        plan.analysis_modes,
        vec![AnalysisMode::NoAnalysis, AnalysisMode::Shape]
    );
    assert_eq!(plan.points(5).len(), 5 * 2 * 3 * 2 * 2);
}

#[test]
fn a_plan_names_the_first_faulty_argument() {
    let fault = |counts: &str, seeds: &str, schedulers: &str, modes: &str| {
        plan_sweep(counts, seeds, schedulers, modes).err()
    };
    assert_eq!(
        fault("ten", "x", "x", "x"),
        Some("bad --task-counts: invalid digit found in string".to_string())
    );
    assert_eq!(
        fault("10", "1:2:3", "x", "x"),
        Some("bad --seeds: expected format: start:end or single value".to_string())
    );
    assert_eq!(
        fault("10", "1", "x", "x"),
        Some("bad --schedulers: unknown scheduler: x".to_string())
    );
    assert_eq!(
        fault("10", "1", "fp", ","),
        Some("bad --analysis-modes: analysis mode list is empty".to_string())
    );
    assert_eq!(
        fault("10", "1", "fp", "none,openmp-wcrt"),
        Some(
            "analysis mode 'openmp-wcrt' is only supported for --openmp-specialized-json \
             single-run input"
                .to_string()
        )
    );
}

#[test]
fn progress_shows_at_tens_and_at_the_end() {
    let shown: Vec<usize> = (1..=23).filter(|&done| shows_progress(done, 23)).collect();
    assert_eq!(shown, vec![10, 20, 23]);
}

#[test]
fn rows_describe_their_experiment() {
    let point = SweepPoint {
        utilization: 2,
        task_count: 5,
        seed: 7,
        scheduler: SchedulerKind::Llf,
        analysis_mode: AnalysisMode::Shape,
    };
    let config = SimConfig {
        duration_ns: 1_000,
        seed: 7,
    };
    let result = SimEngine::new(config, vec![], vec![], vec![]).summary();
    let row = sweep_row(point, result);
    assert_eq!(row.point, point);
    assert_eq!(row.algorithm, "LLF-Het");
    assert_eq!(row.algorithm_key, "llf");
    assert_eq!(row.algorithm_family, "laxity-driven");
    assert_eq!(row.analysis_mode, "shape");
    assert_eq!(row.analysis.scope, "shape-style schedulability curve analysis");
    assert_eq!(row.workload.source, "synthetic");
    assert_eq!(row.workload.assumptions_json, "[]");
    assert!(row.result.schedulable);

    let mut late = SimEngine::new(config, vec![], vec![], vec![]).summary();
    late.schedulable = false;
    let rows = vec![row, sweep_row(point, late)];
    assert_eq!(schedulable_count(&rows), 1);
}

//! Collected metrics.

use hprss_sim::arith::Ratio;
use hprss_sim::metrics::{CompletionRecord, MetricsCollector, max_chain_reaction_time};
use hprss_sim::{ChainId, DeviceId, E2EMetric, JobId, TaskChain, TaskId};

fn value(ratio: Ratio) -> f64 {
    ratio.num as f64 / ratio.den as f64
}

#[test]
fn metrics_basic() {
    let mut m = MetricsCollector::new();
    m.record_job_release();
    m.record_job_release();
    m.record_completion(JobId(0), TaskId(0), 0, 100);
    m.record_deadline_miss(JobId(1), TaskId(1), 200);

    assert_eq!(m.total_jobs, 2);
    assert_eq!(m.completed_jobs, 1);
    assert_eq!(m.deadline_misses, 1);
    assert!((value(m.miss_ratio()) - 0.5).abs() < f64::EPSILON);
    assert!(!m.is_schedulable());
}

#[test]
fn paper_metrics_are_computed() {
    let mut m = MetricsCollector::new();
    m.record_job_release();
    m.record_job_release();
    m.record_completion(JobId(0), TaskId(0), 10, 110);
    m.record_completion(JobId(1), TaskId(1), 20, 170);

    assert_eq!(m.makespan(), Some(160));
    assert_eq!(m.avg_response_time().map(value), Some(125.0));
    assert_eq!(m.worst_response_time(), Some(150));
}

#[test]
fn per_device_utilization_uses_makespan_window() {
    let mut m = MetricsCollector::new();
    m.record_job_release();
    m.record_job_release();
    m.record_completion(JobId(0), TaskId(0), 0, 100);
    m.record_completion(JobId(1), TaskId(1), 0, 200);

    let per_device = m.per_device_utilization(&[(DeviceId(0), 100), (DeviceId(1), 50)]);
    assert_eq!(per_device.len(), 2);
    assert!((value(per_device[0].utilization) - 0.5).abs() < f64::EPSILON);
    assert!((value(per_device[1].utilization) - 0.25).abs() < f64::EPSILON);
}

#[test]
fn trace_writer_outputs_jsonl() {
    let mut m = MetricsCollector::new();
    m.record_job_release();
    m.record_completion(JobId(2), TaskId(9), 10, 100);
    let out = m.to_jsonl().expect("jsonl should be created");
    assert!(out.contains("\"event\":\"job_complete\""));
    assert!(out.contains("\"task_id\":9"));
}

#[test]
fn task_chain_reaction_time_is_computed() {
    let chain = TaskChain {
        id: ChainId(1),
        name: "pipeline".to_string(),
        tasks: vec![TaskId(0), TaskId(1), TaskId(2)],
        e2e_deadline: 1_000,
        metric: E2EMetric::ReactionTime,
    };
    let completions = vec![
        CompletionRecord {
            job_id: JobId(0),
            task_id: TaskId(0),
            release_time: 100,
            completion_time: 200,
        },
        CompletionRecord {
            job_id: JobId(1),
            task_id: TaskId(1),
            release_time: 120,
            completion_time: 260,
        },
        CompletionRecord {
            job_id: JobId(2),
            task_id: TaskId(2),
            release_time: 140,
            completion_time: 320,
        },
    ];
    let rt = max_chain_reaction_time(&chain, &completions).expect("reaction should exist");
    assert_eq!(rt, 220);
}

//! Whole experiments, from the description of a platform to the outcome.

use hprss_sim::arith::Rate;
use hprss_sim::catalog::SchedulerKind;
use hprss_sim::experiment::{prepare_run, run_with, RunError};
use hprss_sim::platform::{
    DeviceSection, InterconnectSection, PlatformConfig, PlatformError, SharedBusSection,
    SimulationSection, default_speed, DEFAULT_CONTEXT_SWITCH_US,
};
use hprss_sim::replay::{ReplayJob, ReplayMetadata, ReplayTask, ReplayWorkload, WorkloadInput};
use hprss_sim::{ArrivalModel, CriticalityLevel, DeviceType, ExecutionTimeModel, Task, TaskId};

fn section(name: &str, device_type: &str, preemption: &str) -> DeviceSection {
    DeviceSection {
        name: name.to_string(),
        device_type: device_type.to_string(),
        cores: 1,
        preemption: preemption.to_string(),
        preemption_granularity_us: Some(10),
        isr_overhead_us: None,
        dma_non_preemptive_us: None,
        reconfig_time_us: None,
        preempt_overhead_us: 0,
        context_switch_us: DEFAULT_CONTEXT_SWITCH_US,
        speed_factor: default_speed(),
        multicore_policy: None,
        power_watts: Some(Rate::new(2, 1)),
    }
}

fn platform() -> PlatformConfig {
    PlatformConfig {
        simulation: SimulationSection {
            duration_ms: 10,
            seed: 3,
            time_unit: "ns".to_string(),
        },
        device: vec![section("host", "cpu", "full"), section("accel", "gpu", "limited")],
        interconnect: vec![InterconnectSection {
            from: "host".to_string(),
            to: "accel".to_string(),
            latency_ns: 1_000,
            bandwidth_bytes_per_ns: Rate::new(1, 1),
            shared_bus: Some("bus".to_string()),
            arbitration: "priority".to_string(),
        }],
        shared_bus: vec![SharedBusSection {
            name: "bus".to_string(),
            total_bandwidth_bytes_per_ns: Rate::new(1, 1),
            arbitration: "priority".to_string(),
        }],
    }
}

fn task(id: u32, period: u64, wcet: u64, affinity: Vec<DeviceType>) -> Task {
    Task {
        id: TaskId(id),
        name: format!("t{id}"),
        priority: id + 1,
        arrival: ArrivalModel::Periodic { period },
        deadline: period,
        criticality: CriticalityLevel::Lo,
        exec_times: affinity
            .iter()
            .map(|dt| (*dt, ExecutionTimeModel::Deterministic { wcet }))
            .collect(),
        affinity,
        data_size: 500,
    }
}

fn tasks() -> Vec<Task> {
    vec![
        task(0, 1_000_000, 100_000, vec![DeviceType::Cpu]),
        task(1, 2_000_000, 300_000, vec![DeviceType::Gpu, DeviceType::Cpu]),
        task(2, 5_000_000, 900_000, vec![DeviceType::Cpu, DeviceType::Gpu]),
    ]
}

#[test]
fn preemptive_schedulers_run_a_light_workload_without_a_miss() {
    for kind in [
        SchedulerKind::Fp,
        SchedulerKind::Edf,
        SchedulerKind::Edfvd,
        SchedulerKind::Llf,
        SchedulerKind::Cpedf,
        SchedulerKind::Federated,
        SchedulerKind::GlobalEdf,
        SchedulerKind::Xsched,
        SchedulerKind::Gpreempt,
        SchedulerKind::Rtgpu,
        SchedulerKind::Match,
        SchedulerKind::GpuPreemptivePriority,
    ] {
        let workload = WorkloadInput::Synthetic { tasks: tasks() };
        let mut engine = prepare_run(&platform(), workload, 3).expect("a valid experiment");
        run_with(&mut engine, kind).expect("a scheduler");
        let result = engine.summary();
        assert_eq!(result.deadline_misses, 0, "{kind:?}");
        assert_eq!(result.total_jobs, 10 + 5 + 2, "{kind:?}");
        assert_eq!(result.completed_jobs, result.total_jobs, "{kind:?}");
        assert!(result.schedulable);
        assert_eq!(engine.now(), 10_000_000);
    }
}

#[test]
fn jobs_complete_or_miss_under_other_schedulers() {
    for kind in [SchedulerKind::Heft, SchedulerKind::Gang] {
        let workload = WorkloadInput::Synthetic { tasks: tasks() };
        let mut engine = prepare_run(&platform(), workload, 3).expect("a valid experiment");
        run_with(&mut engine, kind).expect("a scheduler");
        let result = engine.summary();
        assert_eq!(result.total_jobs, 10 + 5 + 2, "{kind:?}");
        assert!(result.completed_jobs > 0, "{kind:?}");
        assert!(result.completed_jobs + result.deadline_misses <= result.total_jobs, "{kind:?}");
    }
}

#[test]
fn the_same_experiment_gives_the_same_outcome() {
    for kind in [
        SchedulerKind::Fp,
        SchedulerKind::Edf,
        SchedulerKind::Edfvd,
        SchedulerKind::Llf,
        SchedulerKind::Heft,
        SchedulerKind::Cpedf,
        SchedulerKind::Federated,
        SchedulerKind::GlobalEdf,
        SchedulerKind::Gang,
        SchedulerKind::Xsched,
        SchedulerKind::Gpreempt,
        SchedulerKind::Rtgpu,
        SchedulerKind::Match,
        SchedulerKind::GpuPreemptivePriority,
    ] {
        let run = || {
            let workload = WorkloadInput::Synthetic { tasks: tasks() };
            let mut engine = prepare_run(&platform(), workload, 3).expect("a valid experiment");
            run_with(&mut engine, kind).expect("a scheduler");
            let result = engine.summary();
            (
                engine.trace_jsonl().unwrap(),
                result.total_jobs,
                result.completed_jobs,
                result.deadline_misses,
                result.makespan,
                result.transfer_overhead,
                result.events_processed,
            )
        };
        assert_eq!(run(), run(), "{kind:?}");
    }
}

#[test]
fn traces_are_ordered_json_lines() {
    let workload = WorkloadInput::Synthetic { tasks: tasks() };
    let mut engine = prepare_run(&platform(), workload, 3).expect("a valid experiment");
    run_with(&mut engine, SchedulerKind::Fp).expect("a scheduler");
    let text = engine.trace_jsonl().unwrap();
    let mut last: u64 = 0;
    let mut lines: usize = 0;
    for line in text.lines() {
        let row: serde_json::Value = serde_json::from_str(line).unwrap();
        assert_eq!(row["event"], "job_complete");
        let time = row["time"].as_u64().unwrap();
        assert!(last <= time);
        last = time;
        lines += 1;
    }
    assert_eq!(lines as u64, engine.summary().completed_jobs);
}

#[test]
fn energy_is_power_times_busy_time() {
    let workload = WorkloadInput::Synthetic {
        tasks: vec![task(0, 20_000_000, 100_000, vec![DeviceType::Cpu])],
    };
    let mut engine = prepare_run(&platform(), workload, 0).expect("a valid experiment");
    run_with(&mut engine, SchedulerKind::Edf).expect("a scheduler");
    let result = engine.summary();
    let busy: u64 = result.per_device_utilization.iter().map(|d| d.busy_ns).sum();
    assert!(busy >= 100_000);
    assert_eq!(result.energy_picojoules, 2_000 * busy as u128);
}

fn failure(platform: &PlatformConfig) -> String {
    let workload = WorkloadInput::Synthetic { tasks: vec![] };
    match prepare_run(platform, workload, 0) {
        Err(RunError::Platform(PlatformError::InvalidValue(text))) => text,
        _ => panic!("an invalid platform was expected"),
    }
}

#[test]
fn faulty_platforms_are_refused_in_order() {
    let mut p = platform();
    p.shared_bus[0].arbitration = "none".to_string();
    assert_eq!(failure(&p), "unknown bus arbitration: none");
    p.interconnect[0].from = "guest".to_string();
    assert_eq!(failure(&p), "unknown device: guest");
    p.device[1].device_type = "npu".to_string();
    assert_eq!(failure(&p), "unknown device type: npu");
}

#[test]
fn jobs_of_unknown_tasks_are_refused() {
    let replay = ReplayWorkload {
        tasks: vec![ReplayTask {
            task_id: 0,
            name: "t".to_string(),
            priority: 1,
            deadline_ns: 100,
            criticality: CriticalityLevel::Lo,
            exec_times: vec![],
            affinity: vec![],
            data_size: 0,
        }],
        jobs: vec![ReplayJob {
            task_id: 9,
            release_ns: 0,
            absolute_deadline_ns: None,
            actual_exec_ns: None,
        }],
        metadata: ReplayMetadata {
            source: None,
            assumptions: vec![],
        },
    };
    match prepare_run(&platform(), WorkloadInput::Replay(replay), 0) {
        Err(RunError::Workload(text)) => {
            assert_eq!(text, "replay job references unknown task 9")
        }
        _ => panic!("an invalid workload was expected"),
    }
}

#[test]
fn an_algorithm_without_implementation_leaves_the_engine_alone() {
    let workload = WorkloadInput::Synthetic { tasks: tasks() };
    let mut engine = prepare_run(&platform(), workload, 0).expect("a valid experiment");
    assert!(matches!(
        run_with(&mut engine, SchedulerKind::Gcaps),
        Err(RunError::NoScheduler(SchedulerKind::Gcaps))
    ));
    assert_eq!(engine.now(), 0);
    assert_eq!(engine.events_processed(), 0);
}

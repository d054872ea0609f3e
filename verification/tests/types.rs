//! Identifiers, devices, events, jobs and tasks.

use hprss_sim::{
    ArrivalModel, CriticalityLevel, DagInstanceId, DeviceId, DeviceType, EdgeTransferId, Event,
    EventKind, ExecutionModel, ExecutionTimeModel, Job, JobId, JobState, Nanos, PreemptionModel,
    ReevaluationTrigger, SubTaskIdx, Task, TaskId,
};

#[test]
fn dag_identifiers_are_comparable() {
    assert!(DagInstanceId(1) < DagInstanceId(2));
    assert!(SubTaskIdx(3) > SubTaskIdx(1));
}

#[test]
fn preemption_blocking() {
    let cpu = PreemptionModel::FullyPreemptive;
    assert_eq!(cpu.max_blocking(), 0);
    assert!(cpu.is_preemptible());

    let gpu = PreemptionModel::LimitedPreemptive {
        granularity_ns: 50_000,
    };
    assert_eq!(gpu.max_blocking(), 50_000);
    assert!(gpu.is_preemptible());

    let fpga = PreemptionModel::NonPreemptive {
        reconfig_time_ns: 2_000_000,
    };
    assert_eq!(fpga.max_blocking(), Nanos::MAX);
    assert!(!fpga.is_preemptible());
}

#[test]
fn event_ordering_min_heap() {
    let e1 = Event {
        time: 100,
        seq: 0,
        kind: EventKind::SimulationEnd,
    };
    let e2 = Event {
        time: 200,
        seq: 0,
        kind: EventKind::SimulationEnd,
    };
    // For min-heap: e1 (time=100) should come first, so e1 > e2 in Ord
    assert!(e1 > e2);
}

#[test]
fn event_staleness() {
    let kind = EventKind::JobComplete {
        job_id: JobId(0),
        expected_version: 3,
        device_id: DeviceId(0),
    };
    assert!(!kind.is_stale(3)); // version matches
    assert!(kind.is_stale(4)); // version mismatch → stale
}

#[test]
fn arrival_never_stale() {
    let kind = EventKind::TaskArrival {
        task_id: TaskId(0),
        job_id: JobId(0),
    };
    assert!(!kind.is_stale(999));
}

#[test]
fn edge_transfer_event_uses_job_version_for_staleness() {
    let kind = EventKind::EdgeTransferComplete {
        job_id: JobId(9),
        expected_version: 2,
        device_id: DeviceId(1),
        edge_id: EdgeTransferId {
            dag_instance_id: DagInstanceId(7),
            from_node: SubTaskIdx(1),
            to_node: SubTaskIdx(3),
        },
    };
    assert!(!kind.is_stale(2));
    assert!(kind.is_stale(3));
}

#[test]
fn scheduler_reevaluation_never_stale() {
    let kind = EventKind::SchedulerReevaluation {
        generation: 1,
        trigger: ReevaluationTrigger::Periodic,
    };
    assert!(!kind.is_stale(0));
    assert!(!kind.is_stale(99));
}

#[test]
fn job_lifecycle() {
    let mut job = Job::new(
        JobId(0),
        TaskId(0),
        0,           // release at t=0
        10_000_000,  // deadline at 10ms
        Some(3_000_000), // actual exec = 3ms
        1,
    );

    assert_eq!(job.state, JobState::Released);
    assert_eq!(job.version, 0);
    assert_eq!(job.remaining_ns(), 3_000_000);

    job.transition(JobState::Ready);
    assert_eq!(job.version, 1);

    job.transition(JobState::Running);
    assert_eq!(job.version, 2);

    job.record_progress(1_000_000); // ran for 1ms
    assert_eq!(job.executed_ns, 1_000_000);
    assert_eq!(job.remaining_ns(), 2_000_000);

    // Preempted
    job.transition(JobState::Suspended);
    assert_eq!(job.version, 3);

    // Resume
    job.transition(JobState::Running);
    job.record_progress(2_000_000); // ran for 2ms more
    assert_eq!(job.remaining_ns(), 0);

    job.transition(JobState::Completed);
    assert!(job.state.is_terminal());
}

#[test]
fn deadline_miss_detection() {
    let job = Job::new(JobId(0), TaskId(0), 0, 10_000_000, Some(3_000_000), 1);
    assert!(!job.has_missed_deadline(5_000_000));
    assert!(job.has_missed_deadline(10_000_001));
}

#[test]
fn mixed_criticality_execution_model_resolves_per_level() {
    let model = ExecutionTimeModel::MixedCriticality {
        wcet_lo: 10_000,
        wcet_hi: 20_000,
    };
    assert_eq!(model.resolve_wcet(CriticalityLevel::Lo), 10_000);
    assert_eq!(model.resolve_wcet(CriticalityLevel::Hi), 20_000);
}

#[test]
fn task_wcet_lookup() {
    let task = Task {
        id: TaskId(0),
        name: "test".into(),
        priority: 1,
        arrival: ArrivalModel::Periodic { period: 10_000_000 },
        deadline: 10_000_000,
        criticality: CriticalityLevel::Hi,
        exec_times: vec![
            (DeviceType::Cpu, ExecutionTimeModel::Deterministic { wcet: 1_000_000 }),
            (DeviceType::Gpu, ExecutionTimeModel::Deterministic { wcet: 200_000 }),
        ],
        affinity: vec![DeviceType::Cpu, DeviceType::Gpu],
        data_size: 4096,
    };

    assert_eq!(task.wcet_on(DeviceType::Cpu), Some(1_000_000));
    assert_eq!(task.wcet_on(DeviceType::Gpu), Some(200_000));
    assert_eq!(task.wcet_on(DeviceType::Dsp), None);
    assert_eq!(task.period(), Some(10_000_000));
}

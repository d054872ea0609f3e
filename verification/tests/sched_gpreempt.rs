//! GPreempt.

use hprss_sim::arith::Rate;
use hprss_sim::schedulers::GPreemptScheduler;
use hprss_sim::{
    Action, ArrivalModel, CriticalityLevel, DeviceConfig, DeviceId, DeviceType, ExecutionTimeModel,
    Job, JobId, JobState, PreemptionModel, QueuedJobInfo, RunningJobInfo, Scheduler, SchedulerView,
    Task, TaskId,
};

fn cpu_device(id: u32, preemption: PreemptionModel) -> DeviceConfig {
    DeviceConfig {
        id: DeviceId(id),
        name: format!("cpu-{id}"),
        device_group: None,
        device_type: DeviceType::Cpu,
        cores: 1,
        preemption,
        context_switch_ns: 0,
        speed_factor: Rate::new(1, 1),
        multicore_policy: None,
        power_watts: None,
    }
}

fn cpu_task(id: u32, criticality: CriticalityLevel) -> Task {
    Task {
        id: TaskId(id),
        name: format!("t{id}"),
        priority: 10,
        arrival: ArrivalModel::Aperiodic,
        deadline: 100_000,
        criticality,
        exec_times: vec![(
            DeviceType::Cpu,
            ExecutionTimeModel::Deterministic { wcet: 10_000 },
        )],
        affinity: vec![DeviceType::Cpu],
        data_size: 0,
    }
}

fn job(id: u64, deadline: u64, priority: u32) -> Job {
    Job {
        id: JobId(id),
        task_id: TaskId(id as u32),
        state: JobState::Ready,
        version: 0,
        release_time: id * 100,
        absolute_deadline: deadline,
        actual_exec_ns: Some(10_000),
        dag_provenance: None,
        executed_ns: 0,
        assigned_device: None,
        exec_start_time: None,
        effective_priority: priority,
    }
}

fn queued(
    id: u64,
    deadline: u64,
    priority: u32,
    criticality: CriticalityLevel,
    release_time: u64,
) -> QueuedJobInfo {
    QueuedJobInfo {
        job_id: JobId(id),
        task_id: TaskId(id as u32),
        priority,
        release_time,
        absolute_deadline: deadline,
        criticality,
    }
}

#[test]
fn gpreempt_scheduler_name() {
    let sched = GPreemptScheduler;
    assert_eq!(sched.name(), "GPreempt");
}

#[test]
fn arrival_prefers_idle_compatible_device_with_deterministic_tie_break() {
    let mut sched = GPreemptScheduler;
    let incoming = job(10, 20_000, 4);
    let task = cpu_task(1, CriticalityLevel::Lo);
    let devices = [
        cpu_device(0, PreemptionModel::FullyPreemptive),
        cpu_device(1, PreemptionModel::FullyPreemptive),
    ];
    let view = SchedulerView {
        now: 0,
        devices: &devices,
        running_jobs: &[(DeviceId(0), None), (DeviceId(1), None)],
        ready_queues: &[(DeviceId(0), vec![]), (DeviceId(1), vec![])],
        criticality_level: CriticalityLevel::Lo,
    };

    let actions = sched.on_job_arrival(&incoming, &task, &view);
    assert!(matches!(
        actions.as_slice(),
        [Action::Dispatch {
            job_id: JobId(10),
            device_id: DeviceId(0)
        }]
    ));
}

#[test]
fn arrival_on_limited_preemptive_device_enqueues_until_checkpoint() {
    let mut sched = GPreemptScheduler;
    let incoming = job(22, 10_000, 1);
    let high_task = cpu_task(22, CriticalityLevel::Hi);
    let devices = [cpu_device(
        0,
        PreemptionModel::LimitedPreemptive {
            granularity_ns: 5_000,
        },
    )];
    let view = SchedulerView {
        now: 100,
        devices: &devices,
        running_jobs: &[(
            DeviceId(0),
            Some(RunningJobInfo {
                job_id: JobId(7),
                task_id: TaskId(7),
                priority: 9,
                release_time: 0,
                absolute_deadline: 80_000,
                criticality: CriticalityLevel::Lo,
                elapsed_ns: 1_000,
            }),
        )],
        ready_queues: &[(DeviceId(0), vec![])],
        criticality_level: CriticalityLevel::Lo,
    };

    let actions = sched.on_job_arrival(&incoming, &high_task, &view);
    assert!(matches!(
        actions.as_slice(),
        [Action::Enqueue {
            job_id: JobId(22),
            device_id: DeviceId(0)
        }]
    ));
}

#[test]
fn preemption_point_preempts_on_limited_preemptive_device() {
    let mut sched = GPreemptScheduler;
    let running_job = job(5, 90_000, 7);
    let devices = [cpu_device(
        0,
        PreemptionModel::LimitedPreemptive {
            granularity_ns: 5_000,
        },
    )];
    let view = SchedulerView {
        now: 1_000,
        devices: &devices,
        running_jobs: &[(
            DeviceId(0),
            Some(RunningJobInfo {
                job_id: JobId(5),
                task_id: TaskId(5),
                priority: 7,
                release_time: 0,
                absolute_deadline: 90_000,
                criticality: CriticalityLevel::Lo,
                elapsed_ns: 2_000,
            }),
        )],
        ready_queues: &[(
            DeviceId(0),
            vec![queued(6, 20_000, 1, CriticalityLevel::Hi, 10)],
        )],
        criticality_level: CriticalityLevel::Lo,
    };

    let actions = sched.on_preemption_point(DeviceId(0), &running_job, &view);
    assert!(matches!(
        actions.as_slice(),
        [Action::Preempt {
            victim: JobId(5),
            by: JobId(6),
            device_id: DeviceId(0)
        }]
    ));
}

#[test]
fn completion_and_idle_use_same_best_job_ordering() {
    let mut sched = GPreemptScheduler;
    let finished = job(30, 100_000, 10);
    let devices = [cpu_device(0, PreemptionModel::FullyPreemptive)];
    let view = SchedulerView {
        now: 2_000,
        devices: &devices,
        running_jobs: &[(DeviceId(0), None)],
        ready_queues: &[(
            DeviceId(0),
            vec![
                queued(40, 40_000, 5, CriticalityLevel::Lo, 0),
                queued(41, 30_000, 8, CriticalityLevel::Lo, 0),
                queued(42, 70_000, 1, CriticalityLevel::Hi, 1),
            ],
        )],
        criticality_level: CriticalityLevel::Lo,
    };

    let on_complete = sched.on_job_complete(&finished, DeviceId(0), &view);
    let on_idle = sched.on_device_idle(DeviceId(0), &view);

    assert!(matches!(
        on_complete.as_slice(),
        [Action::Dispatch {
            job_id: JobId(42),
            device_id: DeviceId(0)
        }]
    ));
    assert!(matches!(
        on_idle.as_slice(),
        [Action::Dispatch {
            job_id: JobId(42),
            device_id: DeviceId(0)
        }]
    ));
}

//! EDF with virtual deadlines.

use hprss_sim::arith::Rate;
use hprss_sim::schedulers::EdfVdScheduler;
use hprss_sim::{
    Action, ArrivalModel, CriticalityLevel, DeviceConfig, DeviceId, DeviceType, ExecutionTimeModel,
    Job, JobId, JobState, Nanos, PreemptionModel, QueuedJobInfo, RunningJobInfo, Scheduler,
    SchedulerView, Task, TaskId,
};

fn cpu_device() -> DeviceConfig {
    DeviceConfig {
        id: DeviceId(0),
        name: "cpu0".to_string(),
        device_group: None,
        device_type: DeviceType::Cpu,
        cores: 1,
        preemption: PreemptionModel::FullyPreemptive,
        context_switch_ns: 0,
        speed_factor: Rate::new(1, 1),
        multicore_policy: None,
        power_watts: None,
    }
}

fn task(id: u32, criticality: CriticalityLevel, deadline: Nanos) -> Task {
    Task {
        id: TaskId(id),
        name: format!("t{id}"),
        priority: id,
        arrival: ArrivalModel::Aperiodic,
        deadline,
        criticality,
        exec_times: vec![(
            DeviceType::Cpu,
            ExecutionTimeModel::Deterministic { wcet: 10_000 },
        )],
        affinity: vec![DeviceType::Cpu],
        data_size: 0,
    }
}

fn job(id: u64, task_id: u32, release_time: Nanos, deadline: Nanos) -> Job {
    Job {
        id: JobId(id),
        task_id: TaskId(task_id),
        state: JobState::Ready,
        version: 0,
        release_time,
        absolute_deadline: deadline,
        actual_exec_ns: Some(10_000),
        dag_provenance: None,
        executed_ns: 0,
        assigned_device: None,
        exec_start_time: None,
        effective_priority: task_id,
    }
}

#[test]
fn lo_mode_uses_virtual_deadline_for_hi_tasks() {
    let mut scheduler = EdfVdScheduler::default();
    let running = RunningJobInfo {
        job_id: JobId(1),
        task_id: TaskId(1),
        priority: 1,
        release_time: 0,
        absolute_deadline: 40_000,
        criticality: CriticalityLevel::Lo,
        elapsed_ns: 5_000,
    };
    let view = SchedulerView {
        now: 1_000,
        devices: &[cpu_device()],
        running_jobs: &[(DeviceId(0), Some(running))],
        ready_queues: &[(DeviceId(0), vec![])],
        criticality_level: CriticalityLevel::Lo,
    };
    let incoming_task = task(2, CriticalityLevel::Hi, 50_000);
    let incoming_job = job(2, 2, 0, 50_000);

    let actions = scheduler.on_job_arrival(&incoming_job, &incoming_task, &view);
    assert!(matches!(
        actions.as_slice(),
        [Action::Preempt {
            victim: JobId(1),
            by: JobId(2),
            device_id: DeviceId(0)
        }]
    ));
}

#[test]
fn mode_switch_drops_lo_jobs() {
    let mut scheduler = EdfVdScheduler::default();
    let trigger = job(10, 10, 0, 100_000);
    let running = [
        (
            DeviceId(0),
            Some(RunningJobInfo {
                job_id: JobId(1),
                task_id: TaskId(1),
                priority: 1,
                release_time: 0,
                absolute_deadline: 50_000,
                criticality: CriticalityLevel::Lo,
                elapsed_ns: 2_000,
            }),
        ),
        (
            DeviceId(1),
            Some(RunningJobInfo {
                job_id: JobId(2),
                task_id: TaskId(2),
                priority: 1,
                release_time: 0,
                absolute_deadline: 50_000,
                criticality: CriticalityLevel::Hi,
                elapsed_ns: 2_000,
            }),
        ),
    ];
    let ready = [(
        DeviceId(0),
        vec![
            QueuedJobInfo {
                job_id: JobId(3),
                task_id: TaskId(3),
                priority: 1,
                release_time: 0,
                absolute_deadline: 60_000,
                criticality: CriticalityLevel::Lo,
            },
            QueuedJobInfo {
                job_id: JobId(4),
                task_id: TaskId(4),
                priority: 1,
                release_time: 0,
                absolute_deadline: 60_000,
                criticality: CriticalityLevel::Hi,
            },
        ],
    )];
    let devices = [cpu_device()];
    let view = SchedulerView {
        now: 10_000,
        devices: &devices,
        running_jobs: &running,
        ready_queues: &ready,
        criticality_level: CriticalityLevel::Hi,
    };

    let actions = scheduler.on_criticality_change(CriticalityLevel::Hi, &trigger, &view);
    assert_eq!(
        actions
            .into_iter()
            .map(|a| match a {
                Action::DropJob { job_id } => job_id,
                other => panic!("unexpected action: {other:?}"),
            })
            .collect::<Vec<_>>(),
        vec![JobId(1), JobId(3)]
    );
}

#[test]
fn hi_mode_drops_lo_arrivals() {
    let mut scheduler = EdfVdScheduler::default();
    let view = SchedulerView {
        now: 0,
        devices: &[cpu_device()],
        running_jobs: &[(DeviceId(0), None)],
        ready_queues: &[(DeviceId(0), vec![])],
        criticality_level: CriticalityLevel::Hi,
    };
    let lo_task = task(3, CriticalityLevel::Lo, 20_000);
    let lo_job = job(7, 3, 0, 20_000);

    let actions = scheduler.on_job_arrival(&lo_job, &lo_task, &view);
    assert!(matches!(
        actions.as_slice(),
        [Action::DropJob { job_id: JobId(7) }]
    ));
}

#[test]
fn hi_mode_ignores_lo_jobs_when_selecting_next() {
    let mut scheduler = EdfVdScheduler::default();
    let ready = [(
        DeviceId(0),
        vec![
            QueuedJobInfo {
                job_id: JobId(11),
                task_id: TaskId(11),
                priority: 1,
                release_time: 0,
                absolute_deadline: 10_000,
                criticality: CriticalityLevel::Lo,
            },
            QueuedJobInfo {
                job_id: JobId(12),
                task_id: TaskId(12),
                priority: 1,
                release_time: 0,
                absolute_deadline: 20_000,
                criticality: CriticalityLevel::Hi,
            },
        ],
    )];
    let devices = [cpu_device()];
    let view = SchedulerView {
        now: 10_000,
        devices: &devices,
        running_jobs: &[(DeviceId(0), None)],
        ready_queues: &ready,
        criticality_level: CriticalityLevel::Hi,
    };
    let completed = job(1, 1, 0, 5_000);

    let actions = scheduler.on_job_complete(&completed, DeviceId(0), &view);
    assert!(matches!(
        actions.as_slice(),
        [Action::Dispatch {
            job_id: JobId(12),
            device_id: DeviceId(0)
        }]
    ));
}

#[test]
fn hi_mode_preemption_point_drops_running_lo_job() {
    let mut scheduler = EdfVdScheduler::default();
    let running = [(
        DeviceId(0),
        Some(RunningJobInfo {
            job_id: JobId(20),
            task_id: TaskId(20),
            priority: 1,
            release_time: 0,
            absolute_deadline: 15_000,
            criticality: CriticalityLevel::Lo,
            elapsed_ns: 1_000,
        }),
    )];
    let ready = [(
        DeviceId(0),
        vec![QueuedJobInfo {
            job_id: JobId(21),
            task_id: TaskId(21),
            priority: 1,
            release_time: 0,
            absolute_deadline: 20_000,
            criticality: CriticalityLevel::Hi,
        }],
    )];
    let devices = [cpu_device()];
    let view = SchedulerView {
        now: 5_000,
        devices: &devices,
        running_jobs: &running,
        ready_queues: &ready,
        criticality_level: CriticalityLevel::Hi,
    };
    let running_job = job(20, 20, 0, 15_000);

    let actions = scheduler.on_preemption_point(DeviceId(0), &running_job, &view);
    assert!(matches!(
        actions.as_slice(),
        [
            Action::DropJob { job_id: JobId(20) },
            Action::Dispatch {
                job_id: JobId(21),
                device_id: DeviceId(0)
            }
        ]
    ));
}

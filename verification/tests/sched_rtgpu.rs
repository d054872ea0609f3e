//! RTGPU.

use hprss_sim::arith::Rate;
use hprss_sim::schedulers::RtgpuScheduler;
use hprss_sim::{
    Action, ArrivalModel, CriticalityLevel, DeviceConfig, DeviceId, DeviceType, ExecutionTimeModel,
    Job, JobId, JobState, PreemptionModel, QueuedJobInfo, RunningJobInfo, Scheduler, SchedulerView,
    Task, TaskId,
};

fn device(
    id: u32,
    device_type: DeviceType,
    preemption: PreemptionModel,
    speed_factor: Rate,
) -> DeviceConfig {
    DeviceConfig {
        id: DeviceId(id),
        name: format!("{device_type:?}-{id}"),
        device_group: None,
        device_type,
        cores: 1,
        preemption,
        context_switch_ns: 0,
        speed_factor,
        multicore_policy: None,
        power_watts: None,
    }
}

fn task(id: u32, affinity: Vec<DeviceType>, criticality: CriticalityLevel) -> Task {
    Task {
        id: TaskId(id),
        name: format!("t{id}"),
        priority: 10,
        arrival: ArrivalModel::Aperiodic,
        deadline: 50_000,
        criticality,
        exec_times: vec![
            (
                DeviceType::Cpu,
                ExecutionTimeModel::Deterministic { wcet: 15_000 },
            ),
            (
                DeviceType::Gpu,
                ExecutionTimeModel::Deterministic { wcet: 8_000 },
            ),
        ],
        affinity,
        data_size: 0,
    }
}

fn job(id: u64, deadline: u64, priority: u32) -> Job {
    Job {
        id: JobId(id),
        task_id: TaskId(id as u32),
        state: JobState::Ready,
        version: 0,
        release_time: id * 100,
        absolute_deadline: deadline,
        actual_exec_ns: Some(10_000),
        dag_provenance: None,
        executed_ns: 0,
        assigned_device: None,
        exec_start_time: None,
        effective_priority: priority,
    }
}

fn queued(
    id: u64,
    deadline: u64,
    priority: u32,
    criticality: CriticalityLevel,
    release_time: u64,
) -> QueuedJobInfo {
    QueuedJobInfo {
        job_id: JobId(id),
        task_id: TaskId(id as u32),
        priority,
        release_time,
        absolute_deadline: deadline,
        criticality,
    }
}

#[test]
fn rtgpu_scheduler_name() {
    assert_eq!(RtgpuScheduler.name(), "RTGPU");
}

#[test]
fn arrival_prefers_gpu_when_cpu_and_gpu_are_idle() {
    let mut sched = RtgpuScheduler;
    let incoming = job(20, 40_000, 4);
    let task = task(
        1,
        vec![DeviceType::Cpu, DeviceType::Gpu],
        CriticalityLevel::Lo,
    );
    let devices = [
        device(0, DeviceType::Cpu, PreemptionModel::FullyPreemptive, Rate::new(1, 1)),
        device(
            1,
            DeviceType::Gpu,
            PreemptionModel::LimitedPreemptive {
                granularity_ns: 5_000,
            },
            Rate::new(4, 1),
        ),
    ];
    let view = SchedulerView {
        now: 0,
        devices: &devices,
        running_jobs: &[(DeviceId(0), None), (DeviceId(1), None)],
        ready_queues: &[(DeviceId(0), vec![]), (DeviceId(1), vec![])],
        criticality_level: CriticalityLevel::Lo,
    };

    let actions = sched.on_job_arrival(&incoming, &task, &view);
    assert!(matches!(
        actions.as_slice(),
        [Action::Dispatch {
            job_id: JobId(20),
            device_id: DeviceId(1)
        }]
    ));
}

#[test]
fn arrival_uses_less_contended_cpu_when_gpu_queue_is_backlogged() {
    let mut sched = RtgpuScheduler;
    let incoming = job(30, 45_000, 3);
    let task = task(
        2,
        vec![DeviceType::Cpu, DeviceType::Gpu],
        CriticalityLevel::Lo,
    );
    let devices = [
        device(0, DeviceType::Cpu, PreemptionModel::FullyPreemptive, Rate::new(1, 1)),
        device(
            1,
            DeviceType::Gpu,
            PreemptionModel::LimitedPreemptive {
                granularity_ns: 8_000,
            },
            Rate::new(4, 1),
        ),
    ];
    let view = SchedulerView {
        now: 100,
        devices: &devices,
        running_jobs: &[(DeviceId(0), None), (DeviceId(1), None)],
        ready_queues: &[
            (DeviceId(0), vec![]),
            (
                DeviceId(1),
                vec![
                    queued(31, 60_000, 5, CriticalityLevel::Lo, 10),
                    queued(32, 70_000, 6, CriticalityLevel::Lo, 20),
                    queued(33, 80_000, 7, CriticalityLevel::Lo, 30),
                ],
            ),
        ],
        criticality_level: CriticalityLevel::Lo,
    };

    let actions = sched.on_job_arrival(&incoming, &task, &view);
    assert!(matches!(
        actions.as_slice(),
        [Action::Dispatch {
            job_id: JobId(30),
            device_id: DeviceId(0)
        }]
    ));
}

#[test]
fn arrival_on_limited_preemptive_gpu_enqueues_instead_of_immediate_preempt() {
    let mut sched = RtgpuScheduler;
    let incoming = job(41, 20_000, 1);
    let task = task(3, vec![DeviceType::Gpu], CriticalityLevel::Hi);
    let devices = [device(
        1,
        DeviceType::Gpu,
        PreemptionModel::LimitedPreemptive {
            granularity_ns: 5_000,
        },
        Rate::new(3, 1),
    )];
    let view = SchedulerView {
        now: 200,
        devices: &devices,
        running_jobs: &[(
            DeviceId(1),
            Some(RunningJobInfo {
                job_id: JobId(9),
                task_id: TaskId(9),
                priority: 9,
                release_time: 0,
                absolute_deadline: 90_000,
                criticality: CriticalityLevel::Lo,
                elapsed_ns: 1_000,
            }),
        )],
        ready_queues: &[(DeviceId(1), vec![])],
        criticality_level: CriticalityLevel::Lo,
    };

    let actions = sched.on_job_arrival(&incoming, &task, &view);
    assert!(matches!(
        actions.as_slice(),
        [Action::Enqueue {
            job_id: JobId(41),
            device_id: DeviceId(1)
        }]
    ));
}

#[test]
fn preemption_point_can_preempt_gpu_job_at_checkpoint() {
    let mut sched = RtgpuScheduler;
    let running_job = job(50, 60_000, 8);
    let devices = [device(
        1,
        DeviceType::Gpu,
        PreemptionModel::LimitedPreemptive {
            granularity_ns: 5_000,
        },
        Rate::new(3, 1),
    )];
    let view = SchedulerView {
        now: 1_000,
        devices: &devices,
        running_jobs: &[(
            DeviceId(1),
            Some(RunningJobInfo {
                job_id: JobId(50),
                task_id: TaskId(50),
                priority: 8,
                release_time: 0,
                absolute_deadline: 60_000,
                criticality: CriticalityLevel::Lo,
                elapsed_ns: 4_000,
            }),
        )],
        ready_queues: &[(
            DeviceId(1),
            vec![queued(51, 30_000, 2, CriticalityLevel::Hi, 10)],
        )],
        criticality_level: CriticalityLevel::Lo,
    };

    let actions = sched.on_preemption_point(DeviceId(1), &running_job, &view);
    assert!(matches!(
        actions.as_slice(),
        [Action::Preempt {
            victim: JobId(50),
            by: JobId(51),
            device_id: DeviceId(1)
        }]
    ));
}

#[test]
fn criticality_change_drops_low_criticality_ready_jobs() {
    let mut sched = RtgpuScheduler;
    let trigger = job(99, 100_000, 5);
    let devices = [device(
        0,
        DeviceType::Cpu,
        PreemptionModel::FullyPreemptive,
        Rate::new(1, 1),
    )];
    let view = SchedulerView {
        now: 5_000,
        devices: &devices,
        running_jobs: &[(DeviceId(0), None)],
        ready_queues: &[(
            DeviceId(0),
            vec![
                queued(70, 50_000, 5, CriticalityLevel::Lo, 1),
                queued(71, 55_000, 4, CriticalityLevel::Hi, 2),
                queued(72, 60_000, 6, CriticalityLevel::Lo, 3),
            ],
        )],
        criticality_level: CriticalityLevel::Lo,
    };

    let actions = sched.on_criticality_change(CriticalityLevel::Hi, &trigger, &view);
    assert!(matches!(
        actions.as_slice(),
        [
            Action::DropJob { job_id: JobId(70) },
            Action::DropJob { job_id: JobId(72) }
        ]
    ));
}

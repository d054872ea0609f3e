//! Gang scheduling.

use hprss_sim::arith::Rate;
use hprss_sim::schedulers::GangScheduler;
use hprss_sim::{
    Action, ArrivalModel, CriticalityLevel, DeviceConfig, DeviceId, DeviceType, ExecutionTimeModel,
    Job, JobId, JobState, PreemptionModel, QueuedJobInfo, RunningJobInfo, Scheduler, SchedulerView,
    Task, TaskId,
};

fn cpu_device(id: u32) -> DeviceConfig {
    DeviceConfig {
        id: DeviceId(id),
        name: format!("cpu-{id}"),
        device_group: None,
        device_type: DeviceType::Cpu,
        cores: 1,
        preemption: PreemptionModel::FullyPreemptive,
        context_switch_ns: 0,
        speed_factor: Rate::new(1, 1),
        multicore_policy: None,
        power_watts: None,
    }
}

fn cpu_task(id: u32, priority: u32) -> Task {
    Task {
        id: TaskId(id),
        name: format!("t{id}"),
        priority,
        arrival: ArrivalModel::Aperiodic,
        deadline: 50_000,
        criticality: CriticalityLevel::Lo,
        exec_times: vec![(
            DeviceType::Cpu,
            ExecutionTimeModel::Deterministic { wcet: 10_000 },
        )],
        affinity: vec![DeviceType::Cpu],
        data_size: 0,
    }
}

fn job(id: u64, task_id: u32, priority: u32, deadline: u64) -> Job {
    Job {
        id: JobId(id),
        task_id: TaskId(task_id),
        state: JobState::Ready,
        version: 0,
        release_time: 0,
        absolute_deadline: deadline,
        actual_exec_ns: Some(10_000),
        dag_provenance: None,
        executed_ns: 0,
        assigned_device: None,
        exec_start_time: None,
        effective_priority: priority,
    }
}

#[test]
fn arrival_of_non_active_task_is_queued_while_active_gang_runs() {
    let mut sched = GangScheduler::default();
    let active_task = cpu_task(1, 1);
    let first = job(1, 1, 1, 40_000);
    let devices = [cpu_device(0), cpu_device(1)];
    let start_view = SchedulerView {
        now: 0,
        devices: &devices,
        running_jobs: &[(DeviceId(0), None), (DeviceId(1), None)],
        ready_queues: &[(DeviceId(0), vec![]), (DeviceId(1), vec![])],
        criticality_level: CriticalityLevel::Lo,
    };
    let _ = sched.on_job_arrival(&first, &active_task, &start_view);

    let other_task = cpu_task(2, 5);
    let other = job(2, 2, 5, 30_000);
    let running_view = SchedulerView {
        now: 1_000,
        devices: &devices,
        running_jobs: &[
            (
                DeviceId(0),
                Some(RunningJobInfo {
                    job_id: first.id,
                    task_id: first.task_id,
                    priority: first.effective_priority,
                    release_time: first.release_time,
                    absolute_deadline: first.absolute_deadline,
                    criticality: CriticalityLevel::Lo,
                    elapsed_ns: 100,
                }),
            ),
            (DeviceId(1), None),
        ],
        ready_queues: &[(DeviceId(0), vec![]), (DeviceId(1), vec![])],
        criticality_level: CriticalityLevel::Lo,
    };

    let actions = sched.on_job_arrival(&other, &other_task, &running_view);
    assert!(matches!(
        actions.as_slice(),
        [Action::Enqueue {
            job_id: JobId(2),
            ..
        }]
    ));
}

#[test]
fn higher_priority_arrival_can_preempt_non_gang_job() {
    let mut sched = GangScheduler::default();
    sched.active_task = Some(TaskId(1));
    let high_task = cpu_task(1, 1);
    let high = job(10, 1, 1, 20_000);
    let devices = [cpu_device(0)];
    let view = SchedulerView {
        now: 0,
        devices: &devices,
        running_jobs: &[(
            DeviceId(0),
            Some(RunningJobInfo {
                job_id: JobId(7),
                task_id: TaskId(3),
                priority: 7,
                release_time: 0,
                absolute_deadline: 90_000,
                criticality: CriticalityLevel::Lo,
                elapsed_ns: 100,
            }),
        )],
        ready_queues: &[(DeviceId(0), vec![])],
        criticality_level: CriticalityLevel::Lo,
    };

    let actions = sched.on_job_arrival(&high, &high_task, &view);
    assert!(matches!(
        actions.as_slice(),
        [Action::Preempt {
            victim: JobId(7),
            by: JobId(10),
            device_id: DeviceId(0)
        }]
    ));
}

#[test]
fn idle_keeps_device_idle_when_other_gang_running_elsewhere() {
    let mut sched = GangScheduler::default();
    sched.active_task = Some(TaskId(1));
    let devices = [cpu_device(0), cpu_device(1)];
    let view = SchedulerView {
        now: 0,
        devices: &devices,
        running_jobs: &[
            (DeviceId(0), None),
            (
                DeviceId(1),
                Some(RunningJobInfo {
                    job_id: JobId(9),
                    task_id: TaskId(1),
                    priority: 1,
                    release_time: 0,
                    absolute_deadline: 30_000,
                    criticality: CriticalityLevel::Lo,
                    elapsed_ns: 100,
                }),
            ),
        ],
        ready_queues: &[
            (
                DeviceId(0),
                vec![QueuedJobInfo {
                    job_id: JobId(2),
                    task_id: TaskId(2),
                    priority: 5,
                    release_time: 0,
                    absolute_deadline: 50_000,
                    criticality: CriticalityLevel::Lo,
                }],
            ),
            (DeviceId(1), vec![]),
        ],
        criticality_level: CriticalityLevel::Lo,
    };

    let actions = sched.on_device_idle(DeviceId(0), &view);
    assert!(matches!(actions.as_slice(), [Action::NoOp]));
}

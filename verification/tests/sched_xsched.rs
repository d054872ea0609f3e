//! XSched.

use hprss_sim::arith::Rate;
use hprss_sim::schedulers::XSchedScheduler;
use hprss_sim::{
    Action, ArrivalModel, CriticalityLevel, DeviceConfig, DeviceId, DeviceType, ExecutionTimeModel,
    Job, JobId, JobState, PreemptionModel, QueuedJobInfo, RunningJobInfo, Scheduler, SchedulerView,
    Task, TaskId,
};

fn cpu_device(id: u32) -> DeviceConfig {
    DeviceConfig {
        id: DeviceId(id),
        name: format!("cpu-{id}"),
        device_group: None,
        device_type: DeviceType::Cpu,
        cores: 1,
        preemption: PreemptionModel::FullyPreemptive,
        context_switch_ns: 0,
        speed_factor: Rate::new(1, 1),
        multicore_policy: None,
        power_watts: None,
    }
}

fn cpu_task(id: u32) -> Task {
    Task {
        id: TaskId(id),
        name: format!("t{id}"),
        priority: 10,
        arrival: ArrivalModel::Aperiodic,
        deadline: 100_000,
        criticality: CriticalityLevel::Lo,
        exec_times: vec![(
            DeviceType::Cpu,
            ExecutionTimeModel::Deterministic { wcet: 10_000 },
        )],
        affinity: vec![DeviceType::Cpu],
        data_size: 0,
    }
}

fn job(id: u64, deadline: u64, priority: u32, _criticality: CriticalityLevel) -> Job {
    Job {
        id: JobId(id),
        task_id: TaskId(id as u32),
        state: JobState::Ready,
        version: 0,
        release_time: id * 1_000,
        absolute_deadline: deadline,
        actual_exec_ns: Some(10_000),
        dag_provenance: None,
        executed_ns: 0,
        assigned_device: None,
        exec_start_time: None,
        effective_priority: priority,
    }
}

#[test]
fn xsched_arrival_dispatches_to_idle_compatible_device() {
    let mut sched = XSchedScheduler;
    let incoming = job(10, 20_000, 5, CriticalityLevel::Lo);
    let task = cpu_task(1);
    let devices = [cpu_device(0)];
    let view = SchedulerView {
        now: 0,
        devices: &devices,
        running_jobs: &[(DeviceId(0), None)],
        ready_queues: &[(DeviceId(0), vec![])],
        criticality_level: CriticalityLevel::Lo,
    };

    let actions = sched.on_job_arrival(&incoming, &task, &view);
    assert!(matches!(
        actions.as_slice(),
        [Action::Dispatch {
            job_id: JobId(10),
            device_id: DeviceId(0)
        }]
    ));
}

#[test]
fn arrival_preempts_lower_rank_running_job() {
    let mut sched = XSchedScheduler;
    let incoming = job(10, 20_000, 5, CriticalityLevel::Hi);
    let mut task = cpu_task(1);
    task.criticality = CriticalityLevel::Hi;
    let devices = [cpu_device(0)];
    let view = SchedulerView {
        now: 1_000,
        devices: &devices,
        running_jobs: &[(
            DeviceId(0),
            Some(RunningJobInfo {
                job_id: JobId(3),
                task_id: TaskId(3),
                priority: 2,
                release_time: 0,
                absolute_deadline: 10_000,
                criticality: CriticalityLevel::Lo,
                elapsed_ns: 100,
            }),
        )],
        ready_queues: &[(DeviceId(0), vec![])],
        criticality_level: CriticalityLevel::Lo,
    };

    let actions = sched.on_job_arrival(&incoming, &task, &view);
    assert!(matches!(
        actions.as_slice(),
        [Action::Preempt {
            victim: JobId(3),
            by: JobId(10),
            device_id: DeviceId(0)
        }]
    ));
}

#[test]
fn completion_dispatches_best_waiting_job() {
    let mut sched = XSchedScheduler;
    let completed = job(99, 100_000, 10, CriticalityLevel::Lo);
    let devices = [cpu_device(0)];
    let view = SchedulerView {
        now: 2_000,
        devices: &devices,
        running_jobs: &[(DeviceId(0), None)],
        ready_queues: &[(
            DeviceId(0),
            vec![
                QueuedJobInfo {
                    job_id: JobId(20),
                    task_id: TaskId(20),
                    priority: 1,
                    release_time: 10,
                    absolute_deadline: 40_000,
                    criticality: CriticalityLevel::Lo,
                },
                QueuedJobInfo {
                    job_id: JobId(21),
                    task_id: TaskId(21),
                    priority: 9,
                    release_time: 11,
                    absolute_deadline: 90_000,
                    criticality: CriticalityLevel::Hi,
                },
            ],
        )],
        criticality_level: CriticalityLevel::Lo,
    };

    let actions = sched.on_job_complete(&completed, DeviceId(0), &view);
    assert!(matches!(
        actions.as_slice(),
        [Action::Dispatch {
            job_id: JobId(21),
            device_id: DeviceId(0)
        }]
    ));
}

#[test]
fn preemption_point_preempts_for_better_waiting_job() {
    let mut sched = XSchedScheduler;
    let running_job = job(5, 70_000, 7, CriticalityLevel::Lo);
    let devices = [cpu_device(0)];
    let view = SchedulerView {
        now: 3_000,
        devices: &devices,
        running_jobs: &[(
            DeviceId(0),
            Some(RunningJobInfo {
                job_id: JobId(5),
                task_id: TaskId(5),
                priority: 7,
                release_time: 0,
                absolute_deadline: 70_000,
                criticality: CriticalityLevel::Lo,
                elapsed_ns: 500,
            }),
        )],
        ready_queues: &[(
            DeviceId(0),
            vec![QueuedJobInfo {
                job_id: JobId(6),
                task_id: TaskId(6),
                priority: 20,
                release_time: 1_000,
                absolute_deadline: 80_000,
                criticality: CriticalityLevel::Hi,
            }],
        )],
        criticality_level: CriticalityLevel::Lo,
    };

    let actions = sched.on_preemption_point(DeviceId(0), &running_job, &view);
    assert!(matches!(
        actions.as_slice(),
        [Action::Preempt {
            victim: JobId(5),
            by: JobId(6),
            device_id: DeviceId(0)
        }]
    ));
}

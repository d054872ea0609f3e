//! Global EDF.

use hprss_sim::arith::Rate;
use hprss_sim::schedulers::GlobalEdfScheduler;
use hprss_sim::{
    Action, ArrivalModel, CriticalityLevel, DeviceConfig, DeviceId, DeviceType, ExecutionTimeModel,
    Job, JobId, JobState, PreemptionModel, QueuedJobInfo, RunningJobInfo, Scheduler, SchedulerView,
    Task, TaskId,
};

fn cpu_device(id: u32) -> DeviceConfig {
    DeviceConfig {
        id: DeviceId(id),
        name: format!("cpu-{id}"),
        device_group: None,
        device_type: DeviceType::Cpu,
        cores: 1,
        preemption: PreemptionModel::FullyPreemptive,
        context_switch_ns: 0,
        speed_factor: Rate::new(1, 1),
        multicore_policy: None,
        power_watts: None,
    }
}

fn cpu_task(id: u32) -> Task {
    Task {
        id: TaskId(id),
        name: format!("t{id}"),
        priority: 1,
        arrival: ArrivalModel::Aperiodic,
        deadline: 50_000,
        criticality: CriticalityLevel::Lo,
        exec_times: vec![(
            DeviceType::Cpu,
            ExecutionTimeModel::Deterministic { wcet: 10_000 },
        )],
        affinity: vec![DeviceType::Cpu],
        data_size: 0,
    }
}

fn job(id: u64, deadline: u64) -> Job {
    Job {
        id: JobId(id),
        task_id: TaskId(id as u32),
        state: JobState::Ready,
        version: 0,
        release_time: 0,
        absolute_deadline: deadline,
        actual_exec_ns: Some(10_000),
        dag_provenance: None,
        executed_ns: 0,
        assigned_device: None,
        exec_start_time: None,
        effective_priority: 1,
    }
}

#[test]
fn arrival_preempts_worst_running_compatible_job_globally() {
    let mut sched = GlobalEdfScheduler;
    let incoming = job(10, 30_000);
    let task = cpu_task(1);
    let devices = [cpu_device(0), cpu_device(1)];
    let view = SchedulerView {
        now: 1_000,
        devices: &devices,
        running_jobs: &[
            (
                DeviceId(0),
                Some(RunningJobInfo {
                    job_id: JobId(1),
                    task_id: TaskId(1),
                    priority: 1,
                    release_time: 0,
                    absolute_deadline: 80_000,
                    criticality: CriticalityLevel::Lo,
                    elapsed_ns: 100,
                }),
            ),
            (
                DeviceId(1),
                Some(RunningJobInfo {
                    job_id: JobId(2),
                    task_id: TaskId(2),
                    priority: 1,
                    release_time: 0,
                    absolute_deadline: 40_000,
                    criticality: CriticalityLevel::Lo,
                    elapsed_ns: 100,
                }),
            ),
        ],
        ready_queues: &[(DeviceId(0), vec![]), (DeviceId(1), vec![])],
        criticality_level: CriticalityLevel::Lo,
    };

    let actions = sched.on_job_arrival(&incoming, &task, &view);
    assert!(matches!(
        actions.as_slice(),
        [Action::Preempt {
            victim: JobId(1),
            by: JobId(10),
            device_id: DeviceId(0)
        }]
    ));
}

#[test]
fn global_edf_arrival_dispatches_to_idle_compatible_device() {
    let mut sched = GlobalEdfScheduler;
    let incoming = job(3, 20_000);
    let task = cpu_task(1);
    let devices = [cpu_device(0), cpu_device(1)];
    let view = SchedulerView {
        now: 0,
        devices: &devices,
        running_jobs: &[
            (
                DeviceId(0),
                Some(RunningJobInfo {
                    job_id: JobId(1),
                    task_id: TaskId(1),
                    priority: 1,
                    release_time: 0,
                    absolute_deadline: 40_000,
                    criticality: CriticalityLevel::Lo,
                    elapsed_ns: 100,
                }),
            ),
            (DeviceId(1), None),
        ],
        ready_queues: &[(DeviceId(0), vec![]), (DeviceId(1), vec![])],
        criticality_level: CriticalityLevel::Lo,
    };

    let actions = sched.on_job_arrival(&incoming, &task, &view);
    assert!(matches!(
        actions.as_slice(),
        [Action::Dispatch {
            job_id: JobId(3),
            device_id: DeviceId(1)
        }]
    ));
}

#[test]
fn idle_dispatches_earliest_deadline_from_local_queue() {
    let mut sched = GlobalEdfScheduler;
    let devices = [cpu_device(0)];
    let view = SchedulerView {
        now: 0,
        devices: &devices,
        running_jobs: &[(DeviceId(0), None)],
        ready_queues: &[(
            DeviceId(0),
            vec![
                QueuedJobInfo {
                    job_id: JobId(4),
                    task_id: TaskId(1),
                    priority: 2,
                    release_time: 0,
                    absolute_deadline: 80_000,
                    criticality: CriticalityLevel::Lo,
                },
                QueuedJobInfo {
                    job_id: JobId(5),
                    task_id: TaskId(1),
                    priority: 2,
                    release_time: 0,
                    absolute_deadline: 20_000,
                    criticality: CriticalityLevel::Lo,
                },
            ],
        )],
        criticality_level: CriticalityLevel::Lo,
    };

    let actions = sched.on_device_idle(DeviceId(0), &view);
    assert!(matches!(
        actions.as_slice(),
        [Action::Dispatch {
            job_id: JobId(5),
            device_id: DeviceId(0)
        }]
    ));
}

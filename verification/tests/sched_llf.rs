//! Least laxity first.

use hprss_sim::arith::Rate;
use hprss_sim::schedulers::LlfScheduler;
use hprss_sim::{
    Action, ArrivalModel, CriticalityLevel, DeviceConfig, DeviceId, DeviceType, ExecutionTimeModel,
    Job, JobId, JobState, PreemptionModel, QueuedJobInfo, ReevaluationPolicy, ReevaluationTrigger,
    RunningJobInfo, Scheduler, SchedulerView, Task, TaskId,
};

fn cpu_device() -> DeviceConfig {
    DeviceConfig {
        id: DeviceId(0),
        name: "cpu0".to_string(),
        device_group: None,
        device_type: DeviceType::Cpu,
        cores: 1,
        preemption: PreemptionModel::FullyPreemptive,
        context_switch_ns: 0,
        speed_factor: Rate::new(1, 1),
        multicore_policy: None,
        power_watts: None,
    }
}

fn task(id: u32, wcet: u64) -> Task {
    Task {
        id: TaskId(id),
        name: format!("t{id}"),
        priority: id,
        arrival: ArrivalModel::Aperiodic,
        deadline: 100_000,
        criticality: CriticalityLevel::Lo,
        exec_times: vec![(DeviceType::Cpu, ExecutionTimeModel::Deterministic { wcet })],
        affinity: vec![DeviceType::Cpu],
        data_size: 0,
    }
}

fn job(id: u64, task_id: u32, deadline: u64, exec_ns: u64) -> Job {
    Job {
        id: JobId(id),
        task_id: TaskId(task_id),
        state: JobState::Ready,
        version: 0,
        release_time: 0,
        absolute_deadline: deadline,
        actual_exec_ns: Some(exec_ns),
        dag_provenance: None,
        executed_ns: 0,
        assigned_device: Some(DeviceId(0)),
        exec_start_time: None,
        effective_priority: 1,
    }
}

#[test]
fn llf_dispatches_smallest_laxity_on_completion() {
    let mut sched = LlfScheduler::new(ReevaluationPolicy::Disabled);
    let device = cpu_device();
    let running = job(1, 1, 100, 40);
    let waiting_a = job(2, 2, 70, 20);
    let waiting_b = job(3, 3, 65, 30);

    let arrival_view = SchedulerView {
        now: 0,
        devices: std::slice::from_ref(&device),
        running_jobs: &[(
            DeviceId(0),
            Some(RunningJobInfo {
                job_id: running.id,
                task_id: running.task_id,
                priority: 1,
                release_time: 0,
                absolute_deadline: running.absolute_deadline,
                criticality: CriticalityLevel::Lo,
                elapsed_ns: 0,
            }),
        )],
        ready_queues: &[(DeviceId(0), vec![])],
        criticality_level: CriticalityLevel::Lo,
    };
    let _ = sched.on_job_arrival(&waiting_a, &task(2, 20), &arrival_view);
    let _ = sched.on_job_arrival(&waiting_b, &task(3, 30), &arrival_view);

    let complete_view = SchedulerView {
        now: 0,
        devices: std::slice::from_ref(&device),
        running_jobs: &[(DeviceId(0), None)],
        ready_queues: &[(
            DeviceId(0),
            vec![
                QueuedJobInfo {
                    job_id: waiting_a.id,
                    task_id: waiting_a.task_id,
                    priority: 1,
                    release_time: 0,
                    absolute_deadline: waiting_a.absolute_deadline,
                    criticality: CriticalityLevel::Lo,
                },
                QueuedJobInfo {
                    job_id: waiting_b.id,
                    task_id: waiting_b.task_id,
                    priority: 1,
                    release_time: 0,
                    absolute_deadline: waiting_b.absolute_deadline,
                    criticality: CriticalityLevel::Lo,
                },
            ],
        )],
        criticality_level: CriticalityLevel::Lo,
    };

    let actions = sched.on_job_complete(&running, DeviceId(0), &complete_view);
    assert!(matches!(
        actions.as_slice(),
        [Action::Dispatch {
            job_id: JobId(3),
            device_id: DeviceId(0)
        }]
    ));
}

#[test]
fn llf_reevaluation_preempts_when_waiting_job_laxity_becomes_smaller() {
    let mut sched = LlfScheduler::default();
    let device = cpu_device();
    let running = job(1, 1, 100, 40);
    let waiting = job(2, 2, 90, 20);

    let first_arrival_view = SchedulerView {
        now: 0,
        devices: std::slice::from_ref(&device),
        running_jobs: &[(DeviceId(0), None)],
        ready_queues: &[(DeviceId(0), vec![])],
        criticality_level: CriticalityLevel::Lo,
    };
    let _ = sched.on_job_arrival(&running, &task(1, 40), &first_arrival_view);

    let second_arrival_view = SchedulerView {
        now: 0,
        devices: std::slice::from_ref(&device),
        running_jobs: &[(
            DeviceId(0),
            Some(RunningJobInfo {
                job_id: running.id,
                task_id: running.task_id,
                priority: 1,
                release_time: 0,
                absolute_deadline: running.absolute_deadline,
                criticality: CriticalityLevel::Lo,
                elapsed_ns: 0,
            }),
        )],
        ready_queues: &[(DeviceId(0), vec![])],
        criticality_level: CriticalityLevel::Lo,
    };
    let arrival_actions = sched.on_job_arrival(&waiting, &task(2, 20), &second_arrival_view);
    assert!(matches!(
        arrival_actions.as_slice(),
        [Action::Enqueue {
            job_id: JobId(2),
            device_id: DeviceId(0)
        }]
    ));

    let reevaluation_view = SchedulerView {
        now: 30,
        devices: std::slice::from_ref(&device),
        running_jobs: &[(
            DeviceId(0),
            Some(RunningJobInfo {
                job_id: running.id,
                task_id: running.task_id,
                priority: 1,
                release_time: 0,
                absolute_deadline: running.absolute_deadline,
                criticality: CriticalityLevel::Lo,
                elapsed_ns: 30,
            }),
        )],
        ready_queues: &[(
            DeviceId(0),
            vec![QueuedJobInfo {
                job_id: waiting.id,
                task_id: waiting.task_id,
                priority: 1,
                release_time: 0,
                absolute_deadline: waiting.absolute_deadline,
                criticality: CriticalityLevel::Lo,
            }],
        )],
        criticality_level: CriticalityLevel::Lo,
    };

    let actions = sched.on_reevaluation(ReevaluationTrigger::Periodic, &reevaluation_view);
    assert!(matches!(
        actions.as_slice(),
        [Action::Preempt {
            victim: JobId(1),
            by: JobId(2),
            device_id: DeviceId(0)
        }]
    ));
}

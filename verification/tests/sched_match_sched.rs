//! MATCH.

use hprss_sim::arith::Rate;
use hprss_sim::schedulers::MatchScheduler;
use hprss_sim::{
    Action, ArrivalModel, CriticalityLevel, DeviceConfig, DeviceId, DeviceType, ExecutionTimeModel,
    Job, JobId, JobState, PreemptionModel, QueuedJobInfo, RunningJobInfo, Scheduler, SchedulerView,
    Task, TaskId,
};

fn device(
    id: u32,
    device_type: DeviceType,
    speed_factor: Rate,
    preemption: PreemptionModel,
) -> DeviceConfig {
    DeviceConfig {
        id: DeviceId(id),
        name: format!("{device_type:?}-{id}"),
        device_group: None,
        device_type,
        cores: 1,
        preemption,
        context_switch_ns: 0,
        speed_factor,
        multicore_policy: None,
        power_watts: None,
    }
}

fn task(id: u32, affinity: Vec<DeviceType>, exec_times: Vec<(DeviceType, u64)>) -> Task {
    Task {
        id: TaskId(id),
        name: format!("t{id}"),
        priority: 8,
        arrival: ArrivalModel::Aperiodic,
        deadline: 100_000,
        criticality: CriticalityLevel::Lo,
        exec_times: exec_times
            .into_iter()
            .map(|(device_type, wcet)| {
                (device_type, ExecutionTimeModel::Deterministic { wcet })
            })
            .collect(),
        affinity,
        data_size: 0,
    }
}

fn job(id: u64, task_id: u32, deadline: u64, priority: u32) -> Job {
    Job {
        id: JobId(id),
        task_id: TaskId(task_id),
        state: JobState::Ready,
        version: 0,
        release_time: id * 1_000,
        absolute_deadline: deadline,
        actual_exec_ns: Some(10_000),
        dag_provenance: None,
        executed_ns: 0,
        assigned_device: None,
        exec_start_time: None,
        effective_priority: priority,
    }
}

fn queued(job: &Job, criticality: CriticalityLevel) -> QueuedJobInfo {
    QueuedJobInfo {
        job_id: job.id,
        task_id: job.task_id,
        priority: job.effective_priority,
        release_time: job.release_time,
        absolute_deadline: job.absolute_deadline,
        criticality,
    }
}

#[test]
fn arrival_picks_fastest_compatible_device_with_deterministic_tie_break() {
    let mut sched = MatchScheduler::default();
    let cpu0 = device(0, DeviceType::Cpu, Rate::new(1, 1), PreemptionModel::FullyPreemptive);
    let cpu1 = device(1, DeviceType::Cpu, Rate::new(2, 1), PreemptionModel::FullyPreemptive);
    let t = task(1, vec![DeviceType::Cpu], vec![(DeviceType::Cpu, 20_000)]);
    let j = job(1, 1, 60_000, 5);

    let view = SchedulerView {
        now: 0,
        devices: &[cpu0, cpu1],
        running_jobs: &[(DeviceId(0), None), (DeviceId(1), None)],
        ready_queues: &[(DeviceId(0), vec![]), (DeviceId(1), vec![])],
        criticality_level: CriticalityLevel::Lo,
    };

    let actions = sched.on_job_arrival(&j, &t, &view);
    assert!(matches!(
        actions.as_slice(),
        [Action::Dispatch {
            job_id: JobId(1),
            device_id: DeviceId(1)
        }]
    ));
}

#[test]
fn mapping_is_sticky_for_same_task_across_arrivals() {
    let mut sched = MatchScheduler::default();
    let cpu0 = device(0, DeviceType::Cpu, Rate::new(1, 1), PreemptionModel::FullyPreemptive);
    let cpu1 = device(1, DeviceType::Cpu, Rate::new(2, 1), PreemptionModel::FullyPreemptive);
    let t = task(2, vec![DeviceType::Cpu], vec![(DeviceType::Cpu, 20_000)]);
    let first = job(10, 2, 60_000, 6);
    let second = job(11, 2, 60_500, 6);

    let first_view = SchedulerView {
        now: 0,
        devices: &[cpu0.clone(), cpu1.clone()],
        running_jobs: &[(DeviceId(0), None), (DeviceId(1), None)],
        ready_queues: &[(DeviceId(0), vec![]), (DeviceId(1), vec![])],
        criticality_level: CriticalityLevel::Lo,
    };
    let first_actions = sched.on_job_arrival(&first, &t, &first_view);
    assert!(matches!(
        first_actions.as_slice(),
        [Action::Dispatch {
            job_id: JobId(10),
            device_id: DeviceId(1)
        }]
    ));

    let busy_view = SchedulerView {
        now: 2_000,
        devices: &[cpu0, cpu1],
        running_jobs: &[
            (DeviceId(0), None),
            (
                DeviceId(1),
                Some(RunningJobInfo {
                    job_id: first.id,
                    task_id: first.task_id,
                    priority: first.effective_priority,
                    release_time: first.release_time,
                    absolute_deadline: first.absolute_deadline,
                    criticality: CriticalityLevel::Lo,
                    elapsed_ns: 2_000,
                }),
            ),
        ],
        ready_queues: &[(DeviceId(0), vec![]), (DeviceId(1), vec![])],
        criticality_level: CriticalityLevel::Lo,
    };
    let second_actions = sched.on_job_arrival(&second, &t, &busy_view);
    assert!(matches!(
        second_actions.as_slice(),
        [Action::Enqueue {
            job_id: JobId(11),
            device_id: DeviceId(1)
        }]
    ));
}

#[test]
fn mapping_rebinds_when_previous_device_is_unavailable() {
    let mut sched = MatchScheduler::default();
    let cpu0 = device(0, DeviceType::Cpu, Rate::new(1, 1), PreemptionModel::FullyPreemptive);
    let cpu1 = device(1, DeviceType::Cpu, Rate::new(2, 1), PreemptionModel::FullyPreemptive);
    let t = task(3, vec![DeviceType::Cpu], vec![(DeviceType::Cpu, 20_000)]);
    let first = job(20, 3, 70_000, 7);
    let second = job(21, 3, 70_000, 7);

    let full_view = SchedulerView {
        now: 0,
        devices: &[cpu0.clone(), cpu1],
        running_jobs: &[(DeviceId(0), None), (DeviceId(1), None)],
        ready_queues: &[(DeviceId(0), vec![]), (DeviceId(1), vec![])],
        criticality_level: CriticalityLevel::Lo,
    };
    let _ = sched.on_job_arrival(&first, &t, &full_view);

    let reduced_view = SchedulerView {
        now: 5_000,
        devices: std::slice::from_ref(&cpu0),
        running_jobs: &[(DeviceId(0), None)],
        ready_queues: &[(DeviceId(0), vec![])],
        criticality_level: CriticalityLevel::Lo,
    };
    let actions = sched.on_job_arrival(&second, &t, &reduced_view);
    assert!(matches!(
        actions.as_slice(),
        [Action::Dispatch {
            job_id: JobId(21),
            device_id: DeviceId(0)
        }]
    ));
}

#[test]
fn arrival_preempts_on_fully_preemptive_device_for_higher_ranked_job() {
    let mut sched = MatchScheduler::default();
    let cpu0 = device(0, DeviceType::Cpu, Rate::new(1, 1), PreemptionModel::FullyPreemptive);
    let t = task(4, vec![DeviceType::Cpu], vec![(DeviceType::Cpu, 10_000)]);
    let incoming = job(31, 4, 20_000, 1);
    let running = job(30, 4, 80_000, 10);

    let view = SchedulerView {
        now: 0,
        devices: std::slice::from_ref(&cpu0),
        running_jobs: &[(
            DeviceId(0),
            Some(RunningJobInfo {
                job_id: running.id,
                task_id: running.task_id,
                priority: running.effective_priority,
                release_time: running.release_time,
                absolute_deadline: running.absolute_deadline,
                criticality: CriticalityLevel::Lo,
                elapsed_ns: 100,
            }),
        )],
        ready_queues: &[(DeviceId(0), vec![])],
        criticality_level: CriticalityLevel::Lo,
    };

    let actions = sched.on_job_arrival(&incoming, &t, &view);
    assert!(matches!(
        actions.as_slice(),
        [Action::Preempt {
            victim: JobId(30),
            by: JobId(31),
            device_id: DeviceId(0)
        }]
    ));
}

#[test]
fn arrival_on_non_preemptive_device_enqueues_even_for_higher_ranked_job() {
    let mut sched = MatchScheduler::default();
    let cpu0 = device(
        0,
        DeviceType::Cpu,
        Rate::new(1, 1),
        PreemptionModel::NonPreemptive {
            reconfig_time_ns: 500,
        },
    );
    let t = task(5, vec![DeviceType::Cpu], vec![(DeviceType::Cpu, 10_000)]);
    let incoming = job(41, 5, 20_000, 1);
    let running = job(40, 5, 80_000, 10);

    let view = SchedulerView {
        now: 0,
        devices: std::slice::from_ref(&cpu0),
        running_jobs: &[(
            DeviceId(0),
            Some(RunningJobInfo {
                job_id: running.id,
                task_id: running.task_id,
                priority: running.effective_priority,
                release_time: running.release_time,
                absolute_deadline: running.absolute_deadline,
                criticality: CriticalityLevel::Lo,
                elapsed_ns: 100,
            }),
        )],
        ready_queues: &[(DeviceId(0), vec![])],
        criticality_level: CriticalityLevel::Lo,
    };

    let actions = sched.on_job_arrival(&incoming, &t, &view);
    assert!(matches!(
        actions.as_slice(),
        [Action::Enqueue {
            job_id: JobId(41),
            device_id: DeviceId(0)
        }]
    ));
}

#[test]
fn completion_and_idle_dispatch_use_same_rank_ordering() {
    let mut sched = MatchScheduler::default();
    let cpu0 = device(0, DeviceType::Cpu, Rate::new(1, 1), PreemptionModel::FullyPreemptive);
    let done_job = job(50, 6, 100_000, 10);
    let q1 = job(51, 6, 50_000, 5);
    let q2 = job(52, 6, 20_000, 3);

    let view = SchedulerView {
        now: 0,
        devices: std::slice::from_ref(&cpu0),
        running_jobs: &[(DeviceId(0), None)],
        ready_queues: &[(
            DeviceId(0),
            vec![
                queued(&q1, CriticalityLevel::Lo),
                queued(&q2, CriticalityLevel::Lo),
            ],
        )],
        criticality_level: CriticalityLevel::Lo,
    };

    let complete_actions = sched.on_job_complete(&done_job, DeviceId(0), &view);
    assert!(matches!(
        complete_actions.as_slice(),
        [Action::Dispatch {
            job_id: JobId(52),
            device_id: DeviceId(0)
        }]
    ));

    let idle_actions = sched.on_device_idle(DeviceId(0), &view);
    assert!(matches!(
        idle_actions.as_slice(),
        [Action::Dispatch {
            job_id: JobId(52),
            device_id: DeviceId(0)
        }]
    ));
}

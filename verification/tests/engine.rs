//! Engine construction and the event queue.

use hprss_sim::arith::Rate;
use hprss_sim::engine::{SimConfig, SimEngine};
use hprss_sim::schedulers::FixedPriorityScheduler;
use hprss_sim::{
    Action, ArrivalModel, CriticalityLevel, DeviceConfig, DeviceId, DeviceType, EventKind,
    ExecutionTimeModel, JobId, JobState, PreemptionModel, Task, TaskId,
};

#[test]
fn engine_basic_lifecycle() {
    let config = SimConfig {
        duration_ns: 1_000_000, // 1ms
        seed: 42,
    };
    let mut engine = SimEngine::new(config, vec![], vec![], vec![]);

    // Create a job
    let job_id = engine.create_job(TaskId(0), 0, 500_000, Some(100_000), 1);
    assert!(engine.get_job(job_id).is_some());
    assert_eq!(engine.get_job(job_id).unwrap().state, JobState::Released);
}

#[test]
fn event_queue_ordering() {
    let config = SimConfig {
        duration_ns: 1_000_000,
        seed: 42,
    };
    let mut engine = SimEngine::new(config, vec![], vec![], vec![]);

    // Schedule events out of order
    engine.schedule_event(
        300,
        EventKind::TaskArrival {
            task_id: TaskId(2),
            job_id: JobId(2),
        },
    );
    engine.schedule_event(
        100,
        EventKind::TaskArrival {
            task_id: TaskId(0),
            job_id: JobId(0),
        },
    );
    engine.schedule_event(
        200,
        EventKind::TaskArrival {
            task_id: TaskId(1),
            job_id: JobId(1),
        },
    );

    // Pop should return in time order
    let e1 = engine.pop_event().unwrap();
    let e2 = engine.pop_event().unwrap();
    let e3 = engine.pop_event().unwrap();
    assert_eq!(e1.time, 100);
    assert_eq!(e2.time, 200);
    assert_eq!(e3.time, 300);
}

fn cpu(id: u32) -> DeviceConfig {
    DeviceConfig {
        id: DeviceId(id),
        name: format!("cpu{id}"),
        device_group: None,
        device_type: DeviceType::Cpu,
        cores: 1,
        preemption: PreemptionModel::FullyPreemptive,
        context_switch_ns: 0,
        speed_factor: Rate::new(1, 1),
        multicore_policy: None,
        power_watts: None,
    }
}

fn task(id: u32, priority: u32, wcet: u64) -> Task {
    Task {
        id: TaskId(id),
        name: format!("t{id}"),
        priority,
        arrival: ArrivalModel::Aperiodic,
        deadline: 1_000,
        criticality: CriticalityLevel::Lo,
        exec_times: vec![(
            DeviceType::Cpu,
            ExecutionTimeModel::Deterministic { wcet },
        )],
        affinity: vec![DeviceType::Cpu],
        data_size: 0,
    }
}

fn engine_with(tasks: Vec<Task>, devices: u32) -> SimEngine {
    let config = SimConfig {
        duration_ns: 10_000,
        seed: 0,
    };
    let mut engine = SimEngine::new(config, (0..devices).map(cpu).collect(), vec![], vec![]);
    engine.register_tasks(tasks);
    engine
}

#[test]
fn a_device_runs_one_job_at_a_time() {
    let mut engine = engine_with(vec![task(0, 2, 50), task(1, 1, 30)], 1);
    let a = engine.create_job(TaskId(0), 0, 1_000, Some(50), 2);
    let b = engine.create_job(TaskId(1), 0, 1_000, Some(30), 1);
    let d = DeviceId(0);
    engine.apply_actions(
        &vec![
            Action::Dispatch { job_id: a, device_id: d },
            Action::Dispatch { job_id: b, device_id: d },
        ],
        None,
    );
    let view = engine.observe();
    assert_eq!(view.running_jobs[0].1.map(|r| r.job_id), Some(a));
    assert_eq!(view.ready_queues[0].1.len(), 1);
    assert_eq!(view.ready_queues[0].1[0].job_id, b);

    engine.apply_actions(
        &vec![Action::Preempt { victim: a, by: b, device_id: d }],
        None,
    );
    assert_eq!(engine.get_job(a).unwrap().state, JobState::Suspended);
    assert_eq!(engine.get_job(b).unwrap().state, JobState::Running);
    let view = engine.observe();
    assert_eq!(view.running_jobs[0].1.map(|r| r.job_id), Some(b));
    assert_eq!(view.ready_queues[0].1[0].job_id, a);
}

#[test]
fn dropped_jobs_hold_nothing_and_stay_dropped() {
    let mut engine = engine_with(vec![task(0, 1, 50)], 2);
    let a = engine.create_job(TaskId(0), 0, 1_000, Some(50), 1);
    engine.apply_actions(
        &vec![
            Action::Dispatch { job_id: a, device_id: DeviceId(1) },
            Action::DropJob { job_id: a },
            Action::Dispatch { job_id: a, device_id: DeviceId(0) },
        ],
        None,
    );
    assert_eq!(engine.get_job(a).unwrap().state, JobState::Dropped);
    let view = engine.observe();
    assert!(view.running_jobs.iter().all(|(_, r)| r.is_none()));
    assert!(view.ready_queues.iter().all(|(_, q)| q.is_empty()));
}

#[test]
fn stale_events_only_move_the_clock() {
    let mut engine = engine_with(vec![task(0, 1, 50)], 1);
    let a = engine.create_job(TaskId(0), 0, 1_000, Some(50), 1);
    engine.schedule_event(
        10,
        EventKind::JobComplete {
            job_id: a,
            expected_version: 7,
            device_id: DeviceId(0),
        },
    );
    engine.run(&mut FixedPriorityScheduler);
    assert_eq!(engine.now(), 10_000);
    assert_eq!(engine.events_processed(), 1);
    assert_eq!(engine.get_job(a).unwrap().state, JobState::Released);
    assert_eq!(engine.metrics().completed_jobs, 0);
}

#[test]
fn unknown_jobs_and_devices_are_left_alone() {
    let mut engine = engine_with(vec![task(0, 1, 50)], 1);
    let a = engine.create_job(TaskId(0), 0, 1_000, Some(50), 1);
    engine.apply_actions(
        &vec![
            Action::Dispatch { job_id: JobId(99), device_id: DeviceId(0) },
            Action::Dispatch { job_id: a, device_id: DeviceId(4) },
            Action::DropJob { job_id: JobId(77) },
            Action::NoOp,
        ],
        None,
    );
    assert_eq!(engine.get_job(a).unwrap().state, JobState::Released);
    assert!(engine.get_job(JobId(99)).is_none());
    assert!(engine.pop_event().is_none());
}

#[test]
fn jobs_can_be_changed_in_place() {
    let mut engine = engine_with(vec![task(0, 1, 50)], 1);
    let a = engine.create_job(TaskId(0), 0, 1_000, None, 1);
    engine.get_job_mut(a).unwrap().actual_exec_ns = Some(5);
    assert_eq!(engine.get_job(a).unwrap().actual_exec_ns, Some(5));
    assert!(engine.get_job_mut(JobId(3)).is_none());
}

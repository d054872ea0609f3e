//! Per-device running slots and ready queues.

use hprss_sim::arith::Rate;
use hprss_sim::device_manager::DeviceManager;
use hprss_sim::{
    ArrivalModel, CriticalityLevel, DeviceConfig, DeviceId, DeviceType, ExecutionTimeModel, Job,
    JobId, PreemptionModel, Task, TaskId,
};

fn make_device(id: u32) -> DeviceConfig {
    DeviceConfig {
        id: DeviceId(id),
        name: format!("cpu{id}"),
        device_group: None,
        device_type: DeviceType::Cpu,
        cores: 1,
        preemption: PreemptionModel::FullyPreemptive,
        context_switch_ns: 10_000,
        speed_factor: Rate::new(1, 1),
        multicore_policy: None,
        power_watts: None,
    }
}

#[test]
fn test_enqueue_priority_order() {
    let mut dm = DeviceManager::new(vec![make_device(0)]);
    let dev = DeviceId(0);

    dm.enqueue(dev, JobId(10), 3);
    dm.enqueue(dev, JobId(11), 1);
    dm.enqueue(dev, JobId(12), 2);

    assert_eq!(dm.dequeue(dev), Some(JobId(11))); // priority 1
    assert_eq!(dm.dequeue(dev), Some(JobId(12))); // priority 2
    assert_eq!(dm.dequeue(dev), Some(JobId(10))); // priority 3
    assert_eq!(dm.dequeue(dev), None);
}

#[test]
fn test_set_clear_running() {
    let mut dm = DeviceManager::new(vec![make_device(0)]);
    let dev = DeviceId(0);

    assert_eq!(dm.running_job(dev), None);
    dm.set_running(dev, JobId(42));
    assert_eq!(dm.running_job(dev), Some(JobId(42)));
    dm.clear_running(dev);
    assert_eq!(dm.running_job(dev), None);
}

#[test]
fn test_remove_from_queue() {
    let mut dm = DeviceManager::new(vec![make_device(0)]);
    let dev = DeviceId(0);

    dm.enqueue(dev, JobId(1), 1);
    dm.enqueue(dev, JobId(2), 2);
    dm.enqueue(dev, JobId(3), 3);

    assert!(dm.remove_from_queue(dev, JobId(2)));
    assert!(!dm.remove_from_queue(dev, JobId(99)));

    assert_eq!(dm.dequeue(dev), Some(JobId(1)));
    assert_eq!(dm.dequeue(dev), Some(JobId(3)));
    assert_eq!(dm.dequeue(dev), None);
}

#[test]
fn test_rebuild_view_data() {
    let mut dm = DeviceManager::new(vec![make_device(0), make_device(1)]);

    // Running job on device 0, queued job on device 1
    dm.set_running(DeviceId(0), JobId(0));
    dm.enqueue(DeviceId(1), JobId(1), 2);

    let mut job0 = Job::new(JobId(0), TaskId(0), 0, 10_000_000, Some(3_000_000), 1);
    job0.exec_start_time = Some(500_000);

    let job1 = Job::new(JobId(1), TaskId(0), 0, 10_000_000, Some(3_000_000), 2);

    let jobs: Vec<Option<Job>> = vec![Some(job0), Some(job1)];

    let task = Task {
        id: TaskId(0),
        name: "test".into(),
        priority: 1,
        arrival: ArrivalModel::Periodic { period: 10_000_000 },
        deadline: 10_000_000,
        criticality: CriticalityLevel::Hi,
        exec_times: vec![(
            DeviceType::Cpu,
            ExecutionTimeModel::Deterministic { wcet: 3_000_000 },
        )],
        affinity: vec![DeviceType::Cpu],
        data_size: 0,
    };
    let tasks = vec![task];

    let now = 1_000_000;
    dm.rebuild_view_data(now, &jobs, &tasks);

    let view = dm.scheduler_view(now, CriticalityLevel::Lo);

    // Device 0: running job with elapsed = now - exec_start_time
    assert_eq!(view.running_jobs[0].0, DeviceId(0));
    let info = view.running_jobs[0].1.as_ref().unwrap();
    assert_eq!(info.job_id, JobId(0));
    assert_eq!(info.priority, 1);
    assert_eq!(info.elapsed_ns, 500_000);
    assert_eq!(info.criticality, CriticalityLevel::Hi);

    // Device 1: no running job
    assert_eq!(view.running_jobs[1].0, DeviceId(1));
    assert!(view.running_jobs[1].1.is_none());

    // Device 0: empty queue
    assert!(view.ready_queues[0].1.is_empty());

    // Device 1: one queued job
    assert_eq!(view.ready_queues[1].1.len(), 1);
    let queued = &view.ready_queues[1].1[0];
    assert_eq!(queued.job_id, JobId(1));
    assert_eq!(queued.priority, 2);
    assert_eq!(queued.criticality, CriticalityLevel::Hi);
}

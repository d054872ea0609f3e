//! Federated scheduling.

use hprss_sim::arith::Rate;
use hprss_sim::schedulers::FederatedScheduler;
use hprss_sim::{
    Action, ArrivalModel, CriticalityLevel, DagInstanceId, DagProvenance, DeviceConfig, DeviceId,
    DeviceType, ExecutionTimeModel, Job, JobId, JobState, PreemptionModel, RunningJobInfo,
    Scheduler, SchedulerView, SubTaskIdx, Task, TaskId,
};

fn cpu_device(id: u32) -> DeviceConfig {
    DeviceConfig {
        id: DeviceId(id),
        name: format!("cpu-{id}"),
        device_group: None,
        device_type: DeviceType::Cpu,
        cores: 1,
        preemption: PreemptionModel::FullyPreemptive,
        context_switch_ns: 0,
        speed_factor: Rate::new(1, 1),
        multicore_policy: None,
        power_watts: None,
    }
}

fn cpu_task(id: u32) -> Task {
    Task {
        id: TaskId(id),
        name: format!("t{id}"),
        priority: 1,
        arrival: ArrivalModel::Aperiodic,
        deadline: 50_000,
        criticality: CriticalityLevel::Lo,
        exec_times: vec![(
            DeviceType::Cpu,
            ExecutionTimeModel::Deterministic { wcet: 10_000 },
        )],
        affinity: vec![DeviceType::Cpu],
        data_size: 0,
    }
}

fn dag_job(id: u64, dag_instance: u64) -> Job {
    Job {
        id: JobId(id),
        task_id: TaskId(id as u32),
        state: JobState::Ready,
        version: 0,
        release_time: 0,
        absolute_deadline: 50_000,
        actual_exec_ns: Some(10_000),
        dag_provenance: Some(DagProvenance {
            dag_instance_id: DagInstanceId(dag_instance),
            node: SubTaskIdx(id as u32),
        }),
        executed_ns: 0,
        assigned_device: None,
        exec_start_time: None,
        effective_priority: 1,
    }
}

#[test]
fn federated_reuses_same_device_for_same_dag_instance() {
    let mut sched = FederatedScheduler::default();
    let cpu0 = cpu_device(0);
    let cpu1 = cpu_device(1);
    let task = cpu_task(1);
    let first = dag_job(1, 9);
    let second = dag_job(2, 9);

    let idle_view = SchedulerView {
        now: 0,
        devices: &[cpu0.clone(), cpu1.clone()],
        running_jobs: &[(cpu0.id, None), (cpu1.id, None)],
        ready_queues: &[(cpu0.id, vec![]), (cpu1.id, vec![])],
        criticality_level: CriticalityLevel::Lo,
    };
    let first_actions = sched.on_job_arrival(&first, &task, &idle_view);
    let first_device = match first_actions.as_slice() {
        [Action::Dispatch { device_id, .. }] => *device_id,
        _ => panic!("expected first job dispatch"),
    };

    let busy_view = SchedulerView {
        now: 1_000,
        devices: &[cpu0, cpu1],
        running_jobs: &[
            (
                first_device,
                Some(RunningJobInfo {
                    job_id: first.id,
                    task_id: first.task_id,
                    priority: 1,
                    release_time: 0,
                    absolute_deadline: first.absolute_deadline,
                    criticality: CriticalityLevel::Lo,
                    elapsed_ns: 0,
                }),
            ),
            (DeviceId((first_device.0 + 1) % 2), None),
        ],
        ready_queues: &[(DeviceId(0), vec![]), (DeviceId(1), vec![])],
        criticality_level: CriticalityLevel::Lo,
    };
    let second_actions = sched.on_job_arrival(&second, &task, &busy_view);
    assert!(matches!(
        second_actions.as_slice(),
        [Action::Enqueue { device_id, .. }] if *device_id == first_device
    ));
}

#[test]
fn federated_separates_distinct_dag_instances_when_capacity_exists() {
    let mut sched = FederatedScheduler::default();
    let cpu0 = cpu_device(0);
    let cpu1 = cpu_device(1);
    let task = cpu_task(1);
    let first = dag_job(1, 1);
    let second = dag_job(2, 2);

    let first_view = SchedulerView {
        now: 0,
        devices: &[cpu0.clone(), cpu1.clone()],
        running_jobs: &[(cpu0.id, None), (cpu1.id, None)],
        ready_queues: &[(cpu0.id, vec![]), (cpu1.id, vec![])],
        criticality_level: CriticalityLevel::Lo,
    };
    let _ = sched.on_job_arrival(&first, &task, &first_view);

    let second_view = SchedulerView {
        now: 1_000,
        devices: &[cpu0, cpu1],
        running_jobs: &[
            (
                DeviceId(0),
                Some(RunningJobInfo {
                    job_id: first.id,
                    task_id: first.task_id,
                    priority: 1,
                    release_time: 0,
                    absolute_deadline: first.absolute_deadline,
                    criticality: CriticalityLevel::Lo,
                    elapsed_ns: 500,
                }),
            ),
            (DeviceId(1), None),
        ],
        ready_queues: &[(DeviceId(0), vec![]), (DeviceId(1), vec![])],
        criticality_level: CriticalityLevel::Lo,
    };
    let second_actions = sched.on_job_arrival(&second, &task, &second_view);
    assert!(matches!(
        second_actions.as_slice(),
        [Action::Dispatch {
            job_id: JobId(2),
            device_id: DeviceId(1)
        }]
    ));
}

#[test]
fn an_instance_keeps_its_device_under_any_affinity() {
    let mut sched = FederatedScheduler::default();
    let cpu = cpu_device(0);
    let mut gpu = cpu_device(1);
    gpu.device_type = DeviceType::Gpu;
    let mut task = cpu_task(1);
    task.exec_times.push((
        DeviceType::Gpu,
        ExecutionTimeModel::Deterministic { wcet: 5_000 },
    ));
    task.affinity = vec![DeviceType::Gpu, DeviceType::Cpu];
    let busy = RunningJobInfo {
        job_id: JobId(90),
        task_id: TaskId(90),
        priority: 1,
        release_time: 0,
        absolute_deadline: 10_000,
        criticality: CriticalityLevel::Lo,
        elapsed_ns: 0,
    };
    let devices = [cpu.clone(), gpu.clone()];
    let queues = [(cpu.id, vec![]), (gpu.id, vec![])];
    let first_running = [(cpu.id, None), (gpu.id, Some(busy))];
    let then_running = [(cpu.id, Some(busy)), (gpu.id, None)];
    let view = |running_jobs| SchedulerView {
        now: 0,
        devices: &devices,
        running_jobs,
        ready_queues: &queues,
        criticality_level: CriticalityLevel::Lo,
    };
    assert_eq!(
        sched.on_job_arrival(&dag_job(1, 9), &task, &view(&first_running[..])),
        vec![Action::Dispatch {
            job_id: JobId(1),
            device_id: cpu.id,
        }]
    );
    // The other device is idle now, but the first one is dedicated.
    assert_eq!(
        sched.on_job_arrival(&dag_job(2, 9), &task, &view(&then_running[..])),
        vec![Action::Enqueue {
            job_id: JobId(2),
            device_id: cpu.id,
        }]
    );
}

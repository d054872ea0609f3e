//! Critical-path EDF.

use hprss_sim::arith::Rate;
use hprss_sim::schedulers::CpEdfScheduler;
use hprss_sim::{
    Action, ArrivalModel, CriticalityLevel, DagInstanceId, DagProvenance, DeviceConfig, DeviceId,
    DeviceType, ExecutionTimeModel, Job, JobId, JobState, PreemptionModel, QueuedJobInfo,
    RunningJobInfo, Scheduler, SchedulerView, SubTaskIdx, Task, TaskId,
};

fn cpu_device() -> DeviceConfig {
    DeviceConfig {
        id: DeviceId(0),
        name: "cpu0".to_string(),
        device_group: None,
        device_type: DeviceType::Cpu,
        cores: 1,
        preemption: PreemptionModel::FullyPreemptive,
        context_switch_ns: 0,
        speed_factor: Rate::new(1, 1),
        multicore_policy: None,
        power_watts: None,
    }
}

fn gpu_limited_device() -> DeviceConfig {
    DeviceConfig {
        id: DeviceId(1),
        name: "gpu0".to_string(),
        device_group: None,
        device_type: DeviceType::Gpu,
        cores: 1,
        preemption: PreemptionModel::LimitedPreemptive {
            granularity_ns: 1_000,
        },
        context_switch_ns: 0,
        speed_factor: Rate::new(1, 1),
        multicore_policy: None,
        power_watts: None,
    }
}

fn task_cpu(id: u32) -> Task {
    Task {
        id: TaskId(id),
        name: format!("t{id}"),
        priority: 1,
        arrival: ArrivalModel::Aperiodic,
        deadline: 100_000,
        criticality: CriticalityLevel::Lo,
        exec_times: vec![(
            DeviceType::Cpu,
            ExecutionTimeModel::Deterministic { wcet: 5_000 },
        )],
        affinity: vec![DeviceType::Cpu],
        data_size: 0,
    }
}

fn task_gpu(id: u32) -> Task {
    Task {
        id: TaskId(id),
        name: format!("t{id}"),
        priority: 1,
        arrival: ArrivalModel::Aperiodic,
        deadline: 100_000,
        criticality: CriticalityLevel::Lo,
        exec_times: vec![(
            DeviceType::Gpu,
            ExecutionTimeModel::Deterministic { wcet: 5_000 },
        )],
        affinity: vec![DeviceType::Gpu],
        data_size: 0,
    }
}

fn dag_job(id: u64, task_id: u32, deadline: u64, node_idx: u32) -> Job {
    Job {
        id: JobId(id),
        task_id: TaskId(task_id),
        state: JobState::Ready,
        version: 0,
        release_time: 0,
        absolute_deadline: deadline,
        actual_exec_ns: Some(5_000),
        dag_provenance: Some(DagProvenance {
            dag_instance_id: DagInstanceId(0),
            node: SubTaskIdx(node_idx),
        }),
        executed_ns: 0,
        assigned_device: None,
        exec_start_time: None,
        effective_priority: 1,
    }
}

#[test]
fn cpedf_prefers_deeper_dag_node_when_deadlines_match() {
    let mut sched = CpEdfScheduler::default();
    let device = cpu_device();
    let running = dag_job(1, 1, 20_000, 0);
    let incoming = dag_job(2, 2, 20_000, 3);
    let task = task_cpu(2);

    let idle_view = SchedulerView {
        now: 0,
        devices: std::slice::from_ref(&device),
        running_jobs: &[(DeviceId(0), None)],
        ready_queues: &[(DeviceId(0), vec![])],
        criticality_level: CriticalityLevel::Lo,
    };
    let _ = sched.on_job_arrival(&running, &task_cpu(1), &idle_view);

    let busy_view = SchedulerView {
        now: 1_000,
        devices: std::slice::from_ref(&device),
        running_jobs: &[(
            DeviceId(0),
            Some(RunningJobInfo {
                job_id: running.id,
                task_id: running.task_id,
                priority: 1,
                release_time: running.release_time,
                absolute_deadline: running.absolute_deadline,
                criticality: CriticalityLevel::Lo,
                elapsed_ns: 500,
            }),
        )],
        ready_queues: &[(DeviceId(0), vec![])],
        criticality_level: CriticalityLevel::Lo,
    };
    let actions = sched.on_job_arrival(&incoming, &task, &busy_view);
    assert!(matches!(
        actions.as_slice(),
        [Action::Preempt {
            victim: JobId(1),
            by: JobId(2),
            device_id: DeviceId(0)
        }]
    ));
}

#[test]
fn cpedf_preempts_limited_device_only_at_preemption_point() {
    let mut sched = CpEdfScheduler::default();
    let device = gpu_limited_device();
    let running = dag_job(10, 10, 40_000, 0);
    let waiting = dag_job(11, 11, 15_000, 4);

    let busy_view = SchedulerView {
        now: 2_000,
        devices: std::slice::from_ref(&device),
        running_jobs: &[(
            DeviceId(1),
            Some(RunningJobInfo {
                job_id: running.id,
                task_id: running.task_id,
                priority: 1,
                release_time: 0,
                absolute_deadline: running.absolute_deadline,
                criticality: CriticalityLevel::Lo,
                elapsed_ns: 1_000,
            }),
        )],
        ready_queues: &[(DeviceId(1), vec![])],
        criticality_level: CriticalityLevel::Lo,
    };
    let arrival_actions = sched.on_job_arrival(&waiting, &task_gpu(11), &busy_view);
    assert!(matches!(
        arrival_actions.as_slice(),
        [Action::Enqueue {
            job_id: JobId(11),
            device_id: DeviceId(1)
        }]
    ));

    let preemption_view = SchedulerView {
        now: 2_000,
        devices: std::slice::from_ref(&device),
        running_jobs: &[(
            DeviceId(1),
            Some(RunningJobInfo {
                job_id: running.id,
                task_id: running.task_id,
                priority: 1,
                release_time: 0,
                absolute_deadline: running.absolute_deadline,
                criticality: CriticalityLevel::Lo,
                elapsed_ns: 1_000,
            }),
        )],
        ready_queues: &[(
            DeviceId(1),
            vec![QueuedJobInfo {
                job_id: waiting.id,
                task_id: waiting.task_id,
                priority: 1,
                release_time: waiting.release_time,
                absolute_deadline: waiting.absolute_deadline,
                criticality: CriticalityLevel::Lo,
            }],
        )],
        criticality_level: CriticalityLevel::Lo,
    };
    let actions = sched.on_preemption_point(DeviceId(1), &running, &preemption_view);
    assert!(matches!(
        actions.as_slice(),
        [Action::Preempt {
            victim: JobId(10),
            by: JobId(11),
            device_id: DeviceId(1)
        }]
    ));
}

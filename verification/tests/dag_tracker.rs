//! DAG registration and precedence.

use hprss_sim::dag_tracker::DagTracker;
use hprss_sim::{
    ArrivalModel, CriticalityLevel, DagTask, DeviceType, ExecutionTimeModel, SubTask, SubTaskIdx,
    TaskId,
};

fn sample_dag() -> DagTask {
    DagTask {
        id: TaskId(7),
        name: "dag".into(),
        arrival: ArrivalModel::Aperiodic,
        deadline: 100_000,
        criticality: CriticalityLevel::Lo,
        nodes: vec![
            SubTask {
                index: 0,
                exec_times: vec![(
                    DeviceType::Cpu,
                    ExecutionTimeModel::Deterministic { wcet: 10_000 },
                )],
                affinity: vec![DeviceType::Cpu],
                data_deps: vec![],
            },
            SubTask {
                index: 1,
                exec_times: vec![(
                    DeviceType::Cpu,
                    ExecutionTimeModel::Deterministic { wcet: 20_000 },
                )],
                affinity: vec![DeviceType::Cpu],
                data_deps: vec![(0, 128)],
            },
            SubTask {
                index: 2,
                exec_times: vec![(
                    DeviceType::Cpu,
                    ExecutionTimeModel::Deterministic { wcet: 20_000 },
                )],
                affinity: vec![DeviceType::Cpu],
                data_deps: vec![(0, 128)],
            },
            SubTask {
                index: 3,
                exec_times: vec![(
                    DeviceType::Cpu,
                    ExecutionTimeModel::Deterministic { wcet: 30_000 },
                )],
                affinity: vec![DeviceType::Cpu],
                data_deps: vec![(1, 256), (2, 256)],
            },
        ],
        edges: vec![(0, 1), (0, 2), (1, 3), (2, 3)],
    }
}

#[test]
fn dag_registration_releases_zero_indegree_nodes() {
    let mut tracker = DagTracker::new();
    let mut tasks = Vec::new();
    let reg = tracker.register_dag(sample_dag(), &mut tasks);
    assert_eq!(reg.ready_task_ids.len(), 1);
    let node0 = tracker
        .proxy_task_id(reg.instance_id, SubTaskIdx(0))
        .expect("node 0 should have proxy task");
    assert_eq!(reg.ready_task_ids, vec![node0]);
}

#[test]
fn fan_in_node_released_only_after_all_incoming_edges_complete() {
    let mut tracker = DagTracker::new();
    let mut tasks = Vec::new();
    let reg = tracker.register_dag(sample_dag(), &mut tasks);
    let node3_task = tracker
        .proxy_task_id(reg.instance_id, SubTaskIdx(3))
        .expect("node 3 should have proxy task");

    let released = tracker.mark_edge_satisfied(reg.instance_id, SubTaskIdx(1), SubTaskIdx(3));
    assert!(released.is_empty(), "fan-in node must stay blocked");
    let released = tracker.mark_edge_satisfied(reg.instance_id, SubTaskIdx(2), SubTaskIdx(3));
    assert_eq!(released, vec![node3_task]);
}

//! Data transfers over links and buses.

use hprss_sim::arith::Rate;
use hprss_sim::transfer_manager::{JobTransferKind, TransferManager};
use hprss_sim::{
    BusArbitration, BusId, DagInstanceId, DeviceId, EdgeTransferId, EventKind, InterconnectConfig,
    JobId, SharedBusConfig, SubTaskIdx,
};

fn dedicated_interconnect(from: DeviceId, to: DeviceId) -> InterconnectConfig {
    InterconnectConfig {
        from,
        to,
        latency_ns: 100,
        bandwidth_bytes_per_ns: Rate::new(2, 1),
        shared_bus: None,
        arbitration: BusArbitration::Dedicated,
    }
}

fn shared_bus_interconnect(from: DeviceId, to: DeviceId, bus_id: BusId) -> InterconnectConfig {
    InterconnectConfig {
        from,
        to,
        latency_ns: 200,
        bandwidth_bytes_per_ns: Rate::new(1, 1),
        shared_bus: Some(bus_id),
        arbitration: BusArbitration::RoundRobin,
    }
}

#[test]
fn test_dedicated_link_immediate() {
    let cpu = DeviceId(0);
    let gpu = DeviceId(1);
    let ic = dedicated_interconnect(cpu, gpu);
    let mut mgr = TransferManager::new(vec![ic], vec![]);

    let events = mgr.initiate_transfer(
        JobId(1),
        cpu,
        gpu,
        1000,
        JobTransferKind::Dispatch,
        0,
        500,
        1,
    );

    assert_eq!(events.len(), 1);
    // latency=100 + ceil(1000/2.0)=500 → transfer_time=600
    assert_eq!(events[0].time, 500 + 600);
    match &events[0].kind {
        EventKind::TransferComplete {
            job_id,
            expected_version,
            device_id,
        } => {
            assert_eq!(*job_id, JobId(1));
            assert_eq!(*expected_version, 1);
            assert_eq!(*device_id, gpu);
        }
        other => panic!("unexpected event kind: {other:?}"),
    }
}

#[test]
fn test_shared_bus_queuing() {
    let cpu = DeviceId(0);
    let gpu = DeviceId(1);
    let dsp = DeviceId(2);
    let bus = BusId(0);

    let ic1 = shared_bus_interconnect(cpu, gpu, bus);
    let ic2 = shared_bus_interconnect(cpu, dsp, bus);
    let bus_cfg = SharedBusConfig {
        id: bus,
        name: "system_bus".to_string(),
        total_bandwidth_bytes_per_ns: Rate::new(1, 1),
        arbitration: BusArbitration::RoundRobin,
    };
    let mut mgr = TransferManager::new(vec![ic1, ic2], vec![bus_cfg]);

    // First transfer starts immediately
    let ev1 = mgr.initiate_transfer(
        JobId(1),
        cpu,
        gpu,
        500,
        JobTransferKind::Dispatch,
        0,
        1000,
        1,
    );
    assert_eq!(ev1.len(), 1);
    // latency=200 + ceil(500/1.0)=500 → time = 1000 + 700 = 1700
    assert_eq!(ev1[0].time, 1700);

    // Second transfer is queued (bus busy)
    let ev2 = mgr.initiate_transfer(
        JobId(2),
        cpu,
        dsp,
        300,
        JobTransferKind::Dispatch,
        0,
        1050,
        1,
    );
    assert!(ev2.is_empty());

    // Complete first transfer → second should start
    let ev3 = mgr.on_transfer_complete(JobId(1), 1700);
    assert_eq!(ev3.len(), 1);
    // latency=200 + ceil(300/1.0)=300 → time = 1700 + 500 = 2200
    assert_eq!(ev3[0].time, 2200);
    match &ev3[0].kind {
        EventKind::TransferComplete {
            job_id, device_id, ..
        } => {
            assert_eq!(*job_id, JobId(2));
            assert_eq!(*device_id, dsp);
        }
        other => panic!("unexpected event kind: {other:?}"),
    }
}

#[test]
fn test_no_interconnect_instant() {
    let mut mgr = TransferManager::new(vec![], vec![]);

    let events = mgr.initiate_transfer(
        JobId(5),
        DeviceId(0),
        DeviceId(3),
        4096,
        JobTransferKind::Dispatch,
        0,
        2000,
        1,
    );

    assert_eq!(events.len(), 1);
    assert_eq!(events[0].time, 2000); // instant
    match &events[0].kind {
        EventKind::TransferComplete {
            job_id, device_id, ..
        } => {
            assert_eq!(*job_id, JobId(5));
            assert_eq!(*device_id, DeviceId(3));
        }
        other => panic!("unexpected event kind: {other:?}"),
    }
}

#[test]
fn test_transfer_time_calculation() {
    let ic = InterconnectConfig {
        from: DeviceId(0),
        to: DeviceId(1),
        latency_ns: 2000,
        bandwidth_bytes_per_ns: Rate::new(3, 2),
        shared_bus: None,
        arbitration: BusArbitration::Dedicated,
    };
    // ceil(4096 / 1.5) = ceil(2730.666...) = 2731
    let time = TransferManager::calculate_transfer_time(&ic, 4096);
    assert_eq!(time, 2000 + 2731);
}

#[test]
fn test_edge_transfer_emits_edge_event() {
    let cpu = DeviceId(0);
    let gpu = DeviceId(1);
    let ic = dedicated_interconnect(cpu, gpu);
    let mut mgr = TransferManager::new(vec![ic], vec![]);
    let edge_id = EdgeTransferId {
        dag_instance_id: DagInstanceId(1),
        from_node: SubTaskIdx(0),
        to_node: SubTaskIdx(2),
    };

    let events = mgr.initiate_edge_transfer(edge_id, JobId(11), cpu, gpu, 512, 1, 100, 3);
    assert_eq!(events.len(), 1);
    match &events[0].kind {
        EventKind::EdgeTransferComplete {
            job_id,
            expected_version,
            device_id,
            edge_id: emitted_edge,
        } => {
            assert_eq!(*job_id, JobId(11));
            assert_eq!(*expected_version, 3);
            assert_eq!(*device_id, gpu);
            assert_eq!(*emitted_edge, edge_id);
        }
        other => panic!("unexpected event kind: {other:?}"),
    }
}

#[test]
fn transfer_stats_track_migration_and_bus_contention() {
    let cpu = DeviceId(0);
    let gpu = DeviceId(1);
    let dsp = DeviceId(2);
    let bus = BusId(0);
    let bus_cfg = SharedBusConfig {
        id: bus,
        name: "system_bus".to_string(),
        total_bandwidth_bytes_per_ns: Rate::new(1, 1),
        arbitration: BusArbitration::RoundRobin,
    };
    let mut mgr = TransferManager::new(
        vec![
            shared_bus_interconnect(cpu, gpu, bus),
            shared_bus_interconnect(cpu, dsp, bus),
        ],
        vec![bus_cfg],
    );

    let first = mgr.initiate_transfer(
        JobId(1),
        cpu,
        gpu,
        100,
        JobTransferKind::Dispatch,
        0,
        1000,
        1,
    );
    assert_eq!(first.len(), 1);
    let second = mgr.initiate_transfer(
        JobId(2),
        cpu,
        dsp,
        200,
        JobTransferKind::Migration,
        0,
        1010,
        1,
    );
    assert!(second.is_empty());

    let start_second = mgr.on_transfer_complete(JobId(1), first[0].time);
    assert_eq!(start_second.len(), 1);
    let finish_second = mgr.on_transfer_complete(JobId(2), start_second[0].time);
    assert!(finish_second.is_empty());

    let stats = mgr.stats();
    assert_eq!(stats.bus_transfer_requests, 2);
    assert_eq!(stats.bus_transfer_contentions, 1);
    assert!(stats.total_transfer_time_ns >= stats.migration_transfer_time_ns);
    assert!(stats.migration_transfer_time_ns > 0);
    assert!(stats.bus_wait_time_ns > 0);
    let ratio = stats.bus_contention_ratio();
    assert!((ratio.num as f64 / ratio.den as f64 - 0.5).abs() < f64::EPSILON);
}

#[test]
fn canceling_active_transfer_counts_only_elapsed_service_time() {
    let cpu = DeviceId(0);
    let gpu = DeviceId(1);
    let mut mgr = TransferManager::new(vec![dedicated_interconnect(cpu, gpu)], vec![]);

    let events = mgr.initiate_transfer(
        JobId(9),
        cpu,
        gpu,
        1000,
        JobTransferKind::Migration,
        0,
        1_000,
        1,
    );
    assert_eq!(events.len(), 1);
    assert_eq!(events[0].time, 1_600);

    let follow_up = mgr.cancel_job(JobId(9), 1_200);
    assert!(follow_up.is_empty());

    let stats = mgr.stats();
    assert_eq!(
        stats.total_transfer_time_ns, 200,
        "only elapsed service time should be counted for canceled transfers"
    );
    assert_eq!(
        stats.migration_transfer_time_ns, 200,
        "migration transfer stats should also use elapsed service time"
    );
}

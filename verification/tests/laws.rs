//! General properties of the parts, on concrete values.

use hprss_sim::arith::{done_in, saturating_mul, thousandths_in, time_for, Rate, Ratio};
use hprss_sim::dag_tracker::DagTracker;
use hprss_sim::device_manager::DeviceManager;
use hprss_sim::engine::{SimConfig, SimEngine};
use hprss_sim::event_queue::EventQueue;
use hprss_sim::metrics::{max_chain_reaction_time, CompletionRecord, MetricsCollector};
use hprss_sim::schedulers::heft::is_acyclic;
use hprss_sim::schedulers::{
    EdfScheduler, EdfVdScheduler, GPreemptScheduler, GlobalEdfScheduler,
    GpuPreemptivePriorityScheduler, HeftPlan, HeftPlanner, HeftScheduler, RtgpuScheduler,
    XSchedScheduler,
};
use hprss_sim::time::fmt_nanos;
use hprss_sim::transfer_manager::{JobTransferKind, TransferManager};
use hprss_sim::virtual_device::{PreemptionCheckInput, PreemptionDecision, VirtualDeviceModel};
use hprss_sim::{
    Action, ArrivalModel, BusArbitration, BusId, ChainId, CriticalityLevel, DagInstanceId,
    DagProvenance, DagTask, DeviceConfig, DeviceId, DeviceType, E2EMetric, Event, EventKind,
    ExecutionTimeModel, InterconnectConfig, Job, JobId, JobState, PreemptionModel, QueuedJobInfo,
    RunningJobInfo, Scheduler, SchedulerView, SharedBusConfig, SubTask, SubTaskIdx, Task,
    TaskChain, TaskId,
};

fn device(id: u32, device_type: DeviceType) -> DeviceConfig {
    DeviceConfig {
        id: DeviceId(id),
        name: format!("d{id}"),
        device_group: None,
        device_type,
        cores: 1,
        preemption: PreemptionModel::FullyPreemptive,
        context_switch_ns: 0,
        speed_factor: Rate::new(1, 1),
        multicore_policy: None,
        power_watts: None,
    }
}

#[test]
fn the_time_for_an_amount_covers_it() {
    assert_eq!(time_for(4096, Rate::new(3, 2)), 2731);
    assert_eq!(time_for(1000, Rate::new(2, 1)), 500);
    // A speed factor of 0.3333.
    assert_eq!(time_for(3333, Rate::new(3_333, 10_000)), 10_000);
    assert_eq!(time_for(u64::MAX, Rate::new(1, 2)), u64::MAX);
    assert_eq!(time_for(7, Rate::new(1, 0)), 0);
    assert_eq!(done_in(10_000, Rate::new(3_333, 10_000)), 3_333);
    assert_eq!(done_in(9_999, Rate::new(3_333, 10_000)), 3_332);
    assert_eq!(done_in(1, Rate::new(1, 0)), u64::MAX);
    assert_eq!(done_in(5, Rate::new(0, 1)), 0);
    assert_eq!(thousandths_in(3, Rate::new(1, 7)), 428);
    assert_eq!(thousandths_in(u64::MAX, Rate::new(u64::MAX, 1)), u128::MAX);
    let least = Rate::new(1, 1_000);
    assert_eq!(Rate::new(1, 1_001).at_least_a_thousandth(), least);
    assert_eq!(Rate::new(0, 0).at_least_a_thousandth(), least);
    assert_eq!(Rate::new(2, 1_999).at_least_a_thousandth(), Rate::new(2, 1_999));
    for rate in [
        Rate::new(1, 1_000),
        Rate::new(3, 7),
        Rate::new(3_333, 10_000),
        Rate::new(1, 1),
        Rate::new(1_001, 1_000),
        Rate::new(7_777, 13),
    ] {
        for amount in [0, 1, 10, 12_345, 1 << 40] {
            assert!(done_in(time_for(amount, rate), rate) >= amount);
        }
    }
    assert_eq!(saturating_mul(u64::MAX, 2), u64::MAX);
    assert_eq!(saturating_mul(6, 7), 42);
    assert_eq!(Ratio::new(5, 0), Ratio::new(0, 1));
}

#[test]
fn times_are_rounded_to_three_places() {
    assert_eq!(fmt_nanos(0), "0ns");
    assert_eq!(fmt_nanos(999), "999ns");
    assert_eq!(fmt_nanos(1_000), "1.000µs");
    for ns in [1_001u64, 999_999, 1_234_567, 999_999_999, 1_999_999_999, 12_345_678_901] {
        let expected = if ns < 1_000_000 {
            format!("{:.3}µs", ns as f64 / 1_000.0)
        } else if ns < 1_000_000_000 {
            format!("{:.3}ms", ns as f64 / 1_000_000.0)
        } else {
            format!("{:.3}s", ns as f64 / 1_000_000_000.0)
        };
        assert_eq!(fmt_nanos(ns), expected);
    }
}

fn at(time: u64, seq: u64) -> Event {
    Event {
        time,
        seq,
        kind: EventKind::SimulationEnd,
    }
}

#[test]
fn events_leave_the_queue_in_order() {
    let mut queue = EventQueue::new();
    for (time, seq) in [(5, 0), (3, 1), (5, 2), (1, 3), (3, 4), (9, 5), (1, 6)] {
        queue.push(at(time, seq));
    }
    assert_eq!(queue.len(), 7);
    let mut seen = Vec::new();
    while let Some(event) = queue.pop() {
        seen.push((event.time, event.seq));
    }
    assert_eq!(
        seen,
        vec![(1, 3), (1, 6), (3, 1), (3, 4), (5, 0), (5, 2), (9, 5)]
    );
    assert!(queue.pop().is_none());
    assert!(at(1, 0).fires_before(&at(1, 1)));
    assert!(!at(1, 1).fires_before(&at(1, 1)));
}

#[test]
fn job_states_are_released_active_or_terminal() {
    for state in [
        JobState::Ready,
        JobState::Transferring,
        JobState::Running,
        JobState::Suspended,
        JobState::Migrating,
    ] {
        assert!(state.is_active() && !state.is_terminal());
    }
    for state in [
        JobState::Completed,
        JobState::DeadlineMissed,
        JobState::Dropped,
    ] {
        assert!(!state.is_active() && state.is_terminal());
    }
    assert!(!JobState::Released.is_active() && !JobState::Released.is_terminal());
}

#[test]
fn state_changes_void_pending_events() {
    let mut job = Job::new(JobId(1), TaskId(0), 0, 100, Some(10), 1);
    let done = EventKind::JobComplete {
        job_id: job.id,
        expected_version: job.version,
        device_id: DeviceId(0),
    };
    let check = EventKind::DeadlineCheck {
        job_id: job.id,
        expected_version: job.version,
    };
    assert!(!done.is_stale(job.version));
    job.transition(JobState::Running);
    assert!(done.is_stale(job.version));
    assert!(!check.is_stale(job.version));
}

#[test]
fn preemption_is_put_off_no_longer_than_the_blocking_bound() {
    for model in [
        PreemptionModel::LimitedPreemptive { granularity_ns: 70 },
        PreemptionModel::InterruptLevel {
            isr_overhead_ns: 5,
            dma_non_preemptive_ns: 90,
        },
    ] {
        let device = VirtualDeviceModel::from_preemption(model);
        let here = |at_preemption_point: bool| {
            device.evaluate_preemption(PreemptionCheckInput {
                at_preemption_point,
            })
        };
        assert_eq!(here(false), PreemptionDecision::DeferUntilPreemptionPoint);
        assert_eq!(here(true), PreemptionDecision::AllowNow);
        assert_eq!(
            device.preemption_point_interval_ns(),
            Some(model.max_blocking())
        );
    }
}

#[test]
fn removal_undoes_enqueuing() {
    let mut m = DeviceManager::new(vec![device(0, DeviceType::Cpu), device(1, DeviceType::Gpu)]);
    let d = DeviceId(0);
    m.enqueue(d, JobId(1), 2);
    m.enqueue(d, JobId(2), 2);
    m.enqueue(d, JobId(3), 1);
    assert!(m.remove_from_queue(d, JobId(3)));
    assert!(!m.is_queued(d, JobId(3)));
    m.enqueue(DeviceId(1), JobId(2), 0);
    m.remove_job_from_all_queues(JobId(2));
    assert!(!m.is_queued(d, JobId(2)) && !m.is_queued(DeviceId(1), JobId(2)));
    m.enqueue(d, JobId(4), 2);
    assert_eq!(m.dequeue(d), Some(JobId(1)));
    assert_eq!(m.dequeue(d), Some(JobId(4)));
    assert_eq!(m.dequeue(d), None);
    assert_eq!(
        m.device_for_type(DeviceType::Gpu).map(|d| d.id),
        Some(DeviceId(1))
    );
    assert!(m.device_for_type(DeviceType::Dsp).is_none());
}

fn bus(arbitration: BusArbitration) -> TransferManager {
    let link = |to: u32| InterconnectConfig {
        from: DeviceId(0),
        to: DeviceId(to),
        latency_ns: 10,
        bandwidth_bytes_per_ns: Rate::new(1, 1),
        shared_bus: Some(BusId(0)),
        arbitration,
    };
    TransferManager::new(
        vec![link(1), link(2)],
        vec![SharedBusConfig {
            id: BusId(0),
            name: "bus".to_string(),
            total_bandwidth_bytes_per_ns: Rate::new(1, 1),
            arbitration,
        }],
    )
}

fn ask(m: &mut TransferManager, job: u64, to: u32, priority: u32) -> usize {
    m.initiate_transfer(
        JobId(job),
        DeviceId(0),
        DeviceId(to),
        100,
        JobTransferKind::Dispatch,
        priority,
        0,
        1,
    )
    .len()
}

#[test]
fn buses_serve_by_priority_or_in_turn() {
    for (arbitration, order) in [
        (BusArbitration::PriorityBased, [3, 2]),
        (BusArbitration::RoundRobin, [2, 3]),
    ] {
        let mut m = bus(arbitration);
        assert_eq!(ask(&mut m, 1, 1, 9), 1);
        assert_eq!(ask(&mut m, 2, 1, 5), 0);
        assert_eq!(ask(&mut m, 3, 2, 4), 0);
        let next = m.on_transfer_complete(JobId(1), 110);
        assert_eq!(next[0].time, 220);
        assert!(matches!(
            next[0].kind,
            EventKind::TransferComplete { job_id, .. } if job_id == JobId(order[0])
        ));
        let last = m.on_transfer_complete(JobId(order[0]), 220);
        assert!(matches!(
            last[0].kind,
            EventKind::TransferComplete { job_id, .. } if job_id == JobId(order[1])
        ));
        assert!(m.on_transfer_complete(JobId(order[1]), 330).is_empty());
        assert!(m.on_bus_arbitration(BusId(0), 330).is_empty());
        assert_eq!(m.stats().bus_transfer_requests, 3);
        assert_eq!(m.stats().bus_transfer_contentions, 2);
        assert_eq!(m.stats().bus_contention_ratio(), Ratio::new(2, 3));
    }
}

#[test]
fn cancelled_jobs_leave_the_bus() {
    let mut m = bus(BusArbitration::RoundRobin);
    ask(&mut m, 1, 1, 0);
    ask(&mut m, 2, 1, 0);
    ask(&mut m, 3, 2, 0);
    assert!(m.cancel_job(JobId(2), 50).is_empty());
    let next = m.cancel_job(JobId(1), 60);
    assert_eq!(next.len(), 1);
    assert_eq!(next[0].time, 170);
    assert_eq!(m.stats().total_transfer_time_ns, 60);
    assert!(m.on_transfer_complete(JobId(3), 170).is_empty());
}

fn sub_task(index: usize, wcet: u64, data_deps: Vec<(usize, u64)>) -> SubTask {
    SubTask {
        index,
        exec_times: vec![(
            DeviceType::Cpu,
            ExecutionTimeModel::Deterministic { wcet },
        )],
        affinity: vec![DeviceType::Cpu],
        data_deps,
    }
}

fn dag(nodes: Vec<SubTask>, edges: Vec<(usize, usize)>) -> DagTask {
    DagTask {
        id: TaskId(5),
        name: "dag".to_string(),
        arrival: ArrivalModel::Aperiodic,
        deadline: 1_000,
        criticality: CriticalityLevel::Lo,
        nodes,
        edges,
    }
}

fn fork() -> DagTask {
    dag(
        vec![
            sub_task(0, 10, vec![]),
            sub_task(1, 20, vec![(0, 4)]),
            sub_task(2, 5, vec![(0, 6)]),
        ],
        vec![(0, 1), (0, 2)],
    )
}

#[test]
fn an_edge_counts_once() {
    let mut tracker = DagTracker::new();
    let mut tasks: Vec<Task> = Vec::new();
    let reg = tracker.register_dag(fork(), &mut tasks);
    assert_eq!(tasks.len(), 3);
    assert_eq!(reg.ready_task_ids, vec![TaskId(0)]);
    let id = reg.instance_id;
    assert_eq!(
        tracker.mark_edge_satisfied(id, SubTaskIdx(0), SubTaskIdx(1)),
        vec![TaskId(1)]
    );
    assert!(tracker
        .mark_edge_satisfied(id, SubTaskIdx(0), SubTaskIdx(1))
        .is_empty());
    assert!(tracker
        .mark_edge_satisfied(id, SubTaskIdx(1), SubTaskIdx(2))
        .is_empty());
    assert_eq!(
        tracker.outgoing_edges(id, SubTaskIdx(0)),
        vec![(SubTaskIdx(1), 4), (SubTaskIdx(2), 6)]
    );
    assert_eq!(
        tracker.provenance_for_task(TaskId(2)),
        Some(DagProvenance {
            dag_instance_id: id,
            node: SubTaskIdx(2),
        })
    );
    assert!(tracker.edges(DagInstanceId(9)).is_none());
    assert_eq!(tracker.instance_count(), 1);
}

#[test]
fn metrics_of_nothing_are_empty() {
    let m = MetricsCollector::new();
    assert_eq!(m.makespan(), None);
    assert_eq!(m.avg_response_time(), None);
    assert_eq!(m.worst_response_time(), None);
    assert_eq!(m.miss_ratio(), Ratio::new(0, 1));
    assert!(m.is_schedulable());
    assert_eq!(m.to_jsonl().unwrap(), "");
    let per_device = m.per_device_utilization(&[(DeviceId(3), 5)]);
    assert_eq!(per_device[0].utilization, Ratio::new(0, 1));
}

#[test]
fn the_trace_is_ordered_by_time() {
    let mut m = MetricsCollector::new();
    m.record_completion(JobId(0), TaskId(0), 0, 50);
    m.record_completion(JobId(1), TaskId(1), 0, 20);
    m.record_deadline_miss(JobId(2), TaskId(2), 20);
    assert_eq!(
        m.to_jsonl().unwrap(),
        "{\"event\":\"job_complete\",\"time\":20,\"job_id\":1,\"task_id\":1}\n\
         {\"event\":\"deadline_miss\",\"time\":20,\"job_id\":2,\"task_id\":2}\n\
         {\"event\":\"job_complete\",\"time\":50,\"job_id\":0,\"task_id\":0}\n"
    );
    assert_eq!(m.makespan(), Some(50));
    assert_eq!(m.avg_response_time(), Some(Ratio { num: 70, den: 2 }));
    assert_eq!(m.worst_response_time(), Some(50));
}

#[test]
fn broken_chains_have_no_reaction_time() {
    let chain = |tasks: Vec<TaskId>| TaskChain {
        id: ChainId(0),
        name: "chain".to_string(),
        tasks,
        e2e_deadline: 100,
        metric: E2EMetric::ReactionTime,
    };
    let completions = vec![
        CompletionRecord {
            job_id: JobId(0),
            task_id: TaskId(0),
            release_time: 0,
            completion_time: 30,
        },
        CompletionRecord {
            job_id: JobId(1),
            task_id: TaskId(1),
            release_time: 0,
            completion_time: 20,
        },
    ];
    assert_eq!(max_chain_reaction_time(&chain(vec![]), &completions), None);
    assert_eq!(
        max_chain_reaction_time(&chain(vec![TaskId(0), TaskId(1)]), &completions),
        None
    );
    assert_eq!(
        max_chain_reaction_time(&chain(vec![TaskId(1), TaskId(0)]), &completions),
        Some(30)
    );
}

#[test]
fn plans_rank_nodes_above_their_successors() {
    let devices = [device(0, DeviceType::Cpu), device(1, DeviceType::Cpu)];
    let task = fork();
    assert!(is_acyclic(&task));
    let mut planner = HeftPlanner::default();
    assert!(planner.plan_for(task.id).is_none());
    let plan: HeftPlan = planner.build_plan(&task, &devices).clone();
    assert_eq!(plan.rank_unit, 2);
    assert_eq!(plan.rank_u, vec![68, 40, 10]);
    // The longest node follows its predecessor at once; the other one starts
    // elsewhere before the device is free again.
    assert_eq!(
        plan.device_mapping,
        vec![DeviceId(0), DeviceId(0), DeviceId(1)]
    );
    assert!(planner.plan_for(task.id).is_some());
    assert!(!is_acyclic(&dag(
        vec![sub_task(0, 1, vec![]), sub_task(1, 1, vec![])],
        vec![(0, 1), (1, 0)],
    )));
}

fn queued(id: u64, deadline: u64) -> QueuedJobInfo {
    QueuedJobInfo {
        job_id: JobId(id),
        task_id: TaskId(0),
        priority: 1,
        release_time: 0,
        absolute_deadline: deadline,
        criticality: CriticalityLevel::Lo,
    }
}

fn cpu_task() -> Task {
    Task {
        id: TaskId(0),
        name: "t".to_string(),
        priority: 1,
        arrival: ArrivalModel::Aperiodic,
        deadline: 100,
        criticality: CriticalityLevel::Lo,
        exec_times: vec![(
            DeviceType::Cpu,
            ExecutionTimeModel::Deterministic { wcet: 10 },
        )],
        affinity: vec![DeviceType::Cpu],
        data_size: 0,
    }
}

#[test]
fn heft_follows_its_plan() {
    let devices = [device(0, DeviceType::Cpu), device(1, DeviceType::Cpu)];
    let running: Vec<(DeviceId, Option<RunningJobInfo>)> =
        vec![(DeviceId(0), None), (DeviceId(1), None)];
    let queues: Vec<(DeviceId, Vec<QueuedJobInfo>)> =
        vec![(DeviceId(0), vec![]), (DeviceId(1), vec![queued(8, 50)])];
    let view = SchedulerView {
        now: 0,
        devices: &devices,
        running_jobs: &running,
        ready_queues: &queues,
        criticality_level: CriticalityLevel::Lo,
    };
    let mut scheduler = HeftScheduler::default();
    let mut job = Job::new(JobId(1), TaskId(0), 0, 100, None, 1);
    job.dag_provenance = Some(DagProvenance {
        dag_instance_id: DagInstanceId(0),
        node: SubTaskIdx(0),
    });
    let to = |device: u32| {
        vec![Action::Dispatch {
            job_id: JobId(1),
            device_id: DeviceId(device),
        }]
    };
    assert_eq!(scheduler.on_job_arrival(&job, &cpu_task(), &view), to(0));
    scheduler.set_instance_plan(
        DagInstanceId(0),
        HeftPlan {
            rank_u: vec![1],
            rank_unit: 1,
            device_mapping: vec![DeviceId(1)],
        },
    );
    assert_eq!(scheduler.on_job_arrival(&job, &cpu_task(), &view), to(1));
}

#[test]
fn edf_takes_the_earliest_deadline() {
    let devices = [device(0, DeviceType::Cpu)];
    let running: Vec<(DeviceId, Option<RunningJobInfo>)> = vec![(DeviceId(0), None)];
    let queues: Vec<(DeviceId, Vec<QueuedJobInfo>)> = vec![(
        DeviceId(0),
        vec![queued(1, 90), queued(2, 40), queued(3, 40)],
    )];
    let view = SchedulerView {
        now: 0,
        devices: &devices,
        running_jobs: &running,
        ready_queues: &queues,
        criticality_level: CriticalityLevel::Lo,
    };
    assert_eq!(
        EdfScheduler.on_device_idle(DeviceId(0), &view),
        vec![Action::Dispatch {
            job_id: JobId(2),
            device_id: DeviceId(0),
        }]
    );
    let late = Job::new(JobId(9), TaskId(0), 0, 40, None, 1);
    assert_eq!(
        EdfScheduler.on_preemption_point(DeviceId(0), &late, &view),
        vec![Action::NoOp]
    );
    assert_eq!(
        EdfScheduler.on_criticality_change(CriticalityLevel::Hi, &late, &view),
        vec![
            Action::DropJob { job_id: JobId(1) },
            Action::DropJob { job_id: JobId(2) },
            Action::DropJob { job_id: JobId(3) },
        ]
    );
}

#[test]
fn virtual_deadlines_are_not_later() {
    let s = EdfVdScheduler::new(3, 4);
    let (lo, hi) = (CriticalityLevel::Lo, CriticalityLevel::Hi);
    assert_eq!(s.effective_deadline(hi, 100, 200, lo), 175);
    assert_eq!(s.effective_deadline(hi, 100, 200, hi), 200);
    assert_eq!(s.effective_deadline(lo, 100, 200, lo), 200);
}

#[test]
fn runs_act_on_what_is_due_by_the_end() {
    let config = SimConfig {
        duration_ns: 100,
        seed: 0,
    };
    let mut engine = SimEngine::new(config, vec![device(0, DeviceType::Cpu)], vec![], vec![]);
    for time in [100, 50, 150, 100] {
        engine.schedule_event(time, EventKind::BusArbitration { bus_id: BusId(0) });
    }
    engine.run(&mut EdfScheduler);
    assert_eq!(engine.now(), 100);
    // Three events are due by the end, and the end itself counts.
    assert_eq!(engine.events_processed(), 4);
}

#[test]
fn nodes_are_released_once_in_any_order_of_marks() {
    let edges = [(0usize, 1usize), (0, 2), (1, 3), (2, 3)];
    let orders = [
        vec![0usize, 1, 2, 3],
        vec![3, 2, 1, 0],
        vec![2, 2, 0, 3, 0, 1, 3],
        vec![1, 3, 0, 2, 2, 1],
    ];
    for order in orders {
        let nodes = (0..4).map(|i| sub_task(i, 1, vec![])).collect();
        let mut tracker = DagTracker::new();
        let mut tasks: Vec<Task> = Vec::new();
        let reg = tracker.register_dag(dag(nodes, edges.to_vec()), &mut tasks);
        let mut released = reg.ready_task_ids;
        assert_eq!(released, vec![TaskId(0)]);
        let mut marked: Vec<usize> = Vec::new();
        for k in order {
            let (from, to) = edges[k];
            let more = tracker.mark_edge_satisfied(
                reg.instance_id,
                SubTaskIdx(from as u32),
                SubTaskIdx(to as u32),
            );
            marked.push(k);
            for id in &more {
                for (e, edge) in edges.iter().enumerate() {
                    assert!(edge.1 as u32 != id.0 || marked.contains(&e));
                }
            }
            released.extend(more);
        }
        released.sort();
        assert_eq!(released, vec![TaskId(0), TaskId(1), TaskId(2), TaskId(3)]);
    }
}

#[test]
fn reaction_times_ignore_the_order_of_records() {
    let chain = TaskChain {
        id: ChainId(0),
        name: "chain".to_string(),
        tasks: vec![TaskId(0), TaskId(1)],
        e2e_deadline: 100,
        metric: E2EMetric::ReactionTime,
    };
    let record = |job: u64, task: u32, release_time: u64, completion_time: u64| CompletionRecord {
        job_id: JobId(job),
        task_id: TaskId(task),
        release_time,
        completion_time,
    };
    let mut records = vec![
        record(0, 0, 0, 10),
        record(1, 0, 5, 25),
        record(2, 1, 0, 20),
        record(3, 1, 0, 60),
        record(4, 0, 50, 70),
    ];
    // The first start ends at 20, the second at 60, and the third has no end.
    assert_eq!(max_chain_reaction_time(&chain, &records), Some(55));
    for _ in 0..records.len() {
        records.rotate_left(1);
        assert_eq!(max_chain_reaction_time(&chain, &records), Some(55));
        records.swap(0, 3);
        assert_eq!(max_chain_reaction_time(&chain, &records), Some(55));
    }
}

#[test]
fn views_list_queues_as_they_are_emptied() {
    let tasks = vec![cpu_task()];
    let jobs: Vec<Option<Job>> = (0..5)
        .map(|id| {
            let mut job = Job::new(JobId(id), TaskId(0), 0, 100, None, 1);
            if id == 4 {
                job.exec_start_time = Some(30);
            }
            Some(job)
        })
        .collect();
    let mut m = DeviceManager::new(vec![device(0, DeviceType::Cpu), device(1, DeviceType::Cpu)]);
    m.enqueue(DeviceId(0), JobId(0), 3);
    m.enqueue(DeviceId(0), JobId(1), 1);
    m.rebuild_view_data(10, &jobs, &tasks);
    m.enqueue(DeviceId(1), JobId(2), 2);
    m.enqueue(DeviceId(0), JobId(3), 1);
    m.set_running(DeviceId(1), JobId(4));
    m.rebuild_view_data(50, &jobs, &tasks);
    m.rebuild_view_data(70, &jobs, &tasks);
    let view = m.scheduler_view(70, CriticalityLevel::Lo);
    assert!(view.running_jobs[0].1.is_none());
    let running = view.running_jobs[1].1.unwrap();
    assert_eq!((running.job_id, running.elapsed_ns), (JobId(4), 40));
    let listed: Vec<Vec<JobId>> = view
        .ready_queues
        .iter()
        .map(|(_, queue)| queue.iter().map(|q| q.job_id).collect())
        .collect();
    for (i, expected) in listed.iter().enumerate() {
        for id in expected {
            assert_eq!(m.dequeue(DeviceId(i as u32)), Some(*id));
        }
        assert_eq!(m.dequeue(DeviceId(i as u32)), None);
    }
    assert_eq!(listed[0], vec![JobId(1), JobId(3), JobId(0)]);
    assert_eq!(m.running_job(DeviceId(1)), Some(JobId(4)));
}

#[test]
fn ranks_are_not_rounded() {
    let devices = [
        device(0, DeviceType::Cpu),
        device(1, DeviceType::Cpu),
        device(2, DeviceType::Gpu),
    ];
    let mut wide = sub_task(1, 2, vec![]);
    wide.exec_times
        .push((DeviceType::Gpu, ExecutionTimeModel::Deterministic { wcet: 3 }));
    wide.affinity.push(DeviceType::Gpu);
    let task = dag(vec![sub_task(0, 1, vec![]), wide], vec![]);
    let mut planner = HeftPlanner::default();
    let plan = planner.build_plan(&task, &devices);
    // One on two candidates, and seven thirds on three.
    assert_eq!(plan.rank_unit, 6);
    assert_eq!(plan.rank_u, vec![6, 14]);
}

#[test]
fn successors_are_listed_once_with_their_data() {
    let mut tracker = DagTracker::new();
    let mut tasks: Vec<Task> = Vec::new();
    // The first successor is named by an edge and by two dependencies, the
    // second by an edge alone, the third by a dependency alone.
    let nodes = vec![
        sub_task(0, 1, vec![]),
        sub_task(1, 1, vec![(0, 4), (0, 7)]),
        sub_task(2, 1, vec![]),
        sub_task(3, 1, vec![(0, 9)]),
    ];
    let reg = tracker.register_dag(dag(nodes, vec![(0, 1), (0, 2)]), &mut tasks);
    let mut listed = tracker.outgoing_edges(reg.instance_id, SubTaskIdx(0));
    listed.sort();
    assert_eq!(
        listed,
        vec![(SubTaskIdx(1), 7), (SubTaskIdx(2), 0), (SubTaskIdx(3), 9)]
    );
    // Another registration of the same DAG leaves the first one as it is.
    let again = tracker.register_dag(fork(), &mut tasks);
    assert_eq!(again.instance_id, DagInstanceId(1));
    let mut later = tracker.outgoing_edges(reg.instance_id, SubTaskIdx(0));
    later.sort();
    assert_eq!(later, listed);
}

#[test]
fn every_scheduler_without_state_has_a_default() {
    assert_eq!(XSchedScheduler::default().name(), "XSched");
    assert_eq!(GPreemptScheduler::default().name(), "GPreempt");
    assert_eq!(RtgpuScheduler::default().name(), "RTGPU");
    assert_eq!(GlobalEdfScheduler::default().name(), "Global-EDF");
    assert_eq!(
        GpuPreemptivePriorityScheduler::default().name(),
        "GPU-Preemptive-Priority"
    );
}

#[test]
fn jobs_run_at_the_exact_speed_of_their_device() {
    let config = SimConfig {
        duration_ns: 20_000,
        seed: 0,
    };
    let mut slow = device(0, DeviceType::Cpu);
    slow.speed_factor = Rate::new(3_333, 10_000);
    slow.power_watts = Some(Rate::new(1, 3));
    let mut engine = SimEngine::new(config, vec![slow], vec![], vec![]);
    engine.register_tasks(vec![cpu_task()]);
    let id = engine.create_job(TaskId(0), 0, 15_000, Some(3_333), 1);
    engine.schedule_event(
        0,
        EventKind::TaskArrival {
            task_id: TaskId(0),
            job_id: id,
        },
    );
    engine.run(&mut EdfScheduler);
    assert_eq!(engine.metrics().completions[0].completion_time, 10_000);
    // A third of a watt for ten microseconds.
    assert_eq!(engine.summary().energy_picojoules, 3_333_333);
}

//! Recorded workloads.

use hprss_sim::arith::Rate;
use hprss_sim::engine::{SimConfig, SimEngine};
use hprss_sim::replay::{
    reindex_replay_task_ids, schedule_replay, workload_metadata_snapshot, workload_source,
    ReplayAssumption, ReplayJob, ReplayMetadata, ReplayTask, ReplayWorkload, WorkloadInput,
    WorkloadSource,
};
use hprss_sim::schedulers::EdfScheduler;
use hprss_sim::{
    ArrivalModel, CriticalityLevel, DeviceConfig, DeviceId, DeviceType, ExecutionTimeModel, JobId,
    JobState, PreemptionModel, TaskId,
};

fn cpu() -> DeviceConfig {
    DeviceConfig {
        id: DeviceId(0),
        name: "cpu".to_string(),
        device_group: None,
        device_type: DeviceType::Cpu,
        cores: 1,
        preemption: PreemptionModel::FullyPreemptive,
        context_switch_ns: 0,
        speed_factor: Rate::new(1, 1),
        multicore_policy: None,
        power_watts: None,
    }
}

fn recorded_task(task_id: u32, wcet: u64) -> ReplayTask {
    ReplayTask {
        task_id,
        name: format!("task-{task_id}"),
        priority: 1,
        deadline_ns: 100,
        criticality: CriticalityLevel::Lo,
        exec_times: vec![(
            DeviceType::Cpu,
            ExecutionTimeModel::Deterministic { wcet },
        )],
        affinity: vec![DeviceType::Cpu],
        data_size: 0,
    }
}

fn recorded_job(task_id: u32, release_ns: u64) -> ReplayJob {
    ReplayJob {
        task_id,
        release_ns,
        absolute_deadline_ns: None,
        actual_exec_ns: None,
    }
}

fn workload(tasks: Vec<ReplayTask>, jobs: Vec<ReplayJob>) -> ReplayWorkload {
    ReplayWorkload {
        tasks,
        jobs,
        metadata: ReplayMetadata {
            source: Some("csv".to_string()),
            assumptions: vec![ReplayAssumption {
                code: "a".to_string(),
                detail: "b".to_string(),
            }],
        },
    }
}

fn engine() -> SimEngine {
    SimEngine::new(
        SimConfig {
            duration_ns: 1_000,
            seed: 0,
        },
        vec![cpu()],
        vec![],
        vec![],
    )
}

#[test]
fn reindexing_numbers_tasks_by_place() {
    let out = reindex_replay_task_ids(workload(
        vec![recorded_task(7, 10), recorded_task(3, 20)],
        vec![
            recorded_job(3, 0),
            recorded_job(7, 5),
            recorded_job(99, 6),
        ],
    ));
    assert_eq!(out.tasks[0].task_id, 0);
    assert_eq!(out.tasks[0].name, "task-7");
    assert_eq!(out.tasks[1].task_id, 1);
    assert_eq!(out.jobs()[0].task_id, 1);
    assert_eq!(out.jobs()[1].task_id, 0);
    assert_eq!(out.jobs()[1].release_ns, 5);
    assert_eq!(out.metadata.source, Some("csv".to_string()));
}

#[test]
fn recorded_tasks_become_aperiodic_tasks() {
    let tasks = workload(vec![recorded_task(0, 10)], vec![]).to_tasks();
    assert_eq!(tasks.len(), 1);
    assert_eq!(tasks[0].id, TaskId(0));
    assert_eq!(tasks[0].arrival, ArrivalModel::Aperiodic);
    assert_eq!(tasks[0].deadline, 100);
    assert_eq!(tasks[0].wcet_on(DeviceType::Cpu), Some(10));
}

#[test]
fn recorded_jobs_run_and_miss_as_recorded() {
    let replay = workload(
        vec![recorded_task(0, 30)],
        vec![
            recorded_job(0, 0),
            ReplayJob {
                task_id: 0,
                release_ns: 10,
                absolute_deadline_ns: Some(40),
                actual_exec_ns: Some(25),
            },
        ],
    );
    let mut engine = engine();
    assert_eq!(schedule_replay(&mut engine, replay), Ok(()));
    let first = engine.get_job(JobId(0)).unwrap();
    assert_eq!(first.absolute_deadline, 100);
    let second = engine.get_job(JobId(1)).unwrap();
    assert_eq!(second.absolute_deadline, 40);
    assert_eq!(second.actual_exec_ns, Some(25));

    engine.run(&mut EdfScheduler);
    // The second job preempts the first at 10 and ends at 35.
    assert_eq!(engine.get_job(JobId(1)).unwrap().state, JobState::Completed);
    assert_eq!(engine.get_job(JobId(0)).unwrap().state, JobState::Completed);
    assert_eq!(engine.metrics().completions[0].completion_time, 35);
    assert_eq!(engine.metrics().completions[1].completion_time, 55);
    assert_eq!(engine.metrics().deadline_misses, 0);
}

#[test]
fn a_recorded_job_that_is_too_long_misses() {
    let replay = workload(
        vec![recorded_task(0, 30)],
        vec![ReplayJob {
            task_id: 0,
            release_ns: 0,
            absolute_deadline_ns: Some(20),
            actual_exec_ns: Some(50),
        }],
    );
    let mut engine = engine();
    schedule_replay(&mut engine, replay).unwrap();
    engine.run(&mut EdfScheduler);
    assert_eq!(engine.metrics().deadline_misses, 1);
    assert_eq!(engine.metrics().completed_jobs, 0);
    assert_eq!(
        engine.get_job(JobId(0)).unwrap().state,
        JobState::DeadlineMissed
    );
}

#[test]
fn a_job_of_an_unknown_task_is_refused() {
    let replay = workload(
        vec![recorded_task(0, 30)],
        vec![recorded_job(0, 0), recorded_job(41, 0)],
    );
    let mut engine = engine();
    assert_eq!(
        schedule_replay(&mut engine, replay),
        Err("replay job references unknown task 41".to_string())
    );
    assert!(engine.get_job(JobId(0)).is_some());
    assert!(engine.get_job(JobId(1)).is_none());
}

#[test]
fn workloads_name_their_source() {
    let synthetic = workload_metadata_snapshot(&WorkloadInput::Synthetic { tasks: vec![] });
    assert_eq!(synthetic.source, "synthetic");
    assert_eq!(synthetic.assumptions_json, "[]");
    assert_eq!(synthetic.assumption_count, 0);
    let named = workload_metadata_snapshot(&WorkloadInput::Replay(workload(vec![], vec![])));
    assert_eq!(named.source, "csv");
    assert_eq!(named.assumptions_json, "[{\"code\":\"a\",\"detail\":\"b\"}]");
    assert_eq!(named.assumption_count, 1);
    let mut unnamed = workload(vec![], vec![]);
    unnamed.metadata.source = None;
    let unnamed = workload_metadata_snapshot(&WorkloadInput::Replay(unnamed));
    assert_eq!(unnamed.source, "replay");
}

#[test]
fn assumptions_are_escaped() {
    let mut odd = workload(vec![], vec![]);
    odd.metadata.assumptions.push(ReplayAssumption {
        code: "quote\" back\\slash".to_string(),
        detail: "\u{8}\t\n\u{c}\r\u{0}\u{1f}\u{7f} \u{b5}\u{1f600}/".to_string(),
    });
    let snapshot = workload_metadata_snapshot(&WorkloadInput::Replay(odd));
    assert_eq!(snapshot.assumption_count, 2);
    assert_eq!(
        snapshot.assumptions_json,
        "[{\"code\":\"a\",\"detail\":\"b\"},{\"code\":\"quote\\\" back\\\\slash\",\"detail\":\
         \"\\b\\t\\n\\f\\r\\u0000\\u001f\u{7f} \u{b5}\u{1f600}/\"}]"
    );
    let parsed: serde_json::Value = serde_json::from_str(&snapshot.assumptions_json).unwrap();
    assert_eq!(parsed[1]["code"], "quote\" back\\slash");
    assert_eq!(
        parsed[1]["detail"],
        "\u{8}\t\n\u{c}\r\u{0}\u{1f}\u{7f} \u{b5}\u{1f600}/"
    );
}

#[test]
fn the_first_given_input_is_the_source() {
    assert_eq!(
        workload_source(true, true, true, true, true),
        WorkloadSource::KaramiProfile
    );
    assert_eq!(
        workload_source(false, true, true, true, true),
        WorkloadSource::OpenmpSpecialized
    );
    assert_eq!(
        workload_source(false, false, true, true, true),
        WorkloadSource::ReplayJson
    );
    assert_eq!(
        workload_source(false, false, false, true, true),
        WorkloadSource::ReplayCsv
    );
    assert_eq!(
        workload_source(false, false, false, true, false),
        WorkloadSource::Synthetic
    );
}

//! Single experiments: an engine made ready for a platform and a workload.

use crate::arith;
use crate::catalog;
use crate::catalog::{AnyScheduler, SchedulerKind};
use crate::device::{DeviceConfig, InterconnectConfig, SharedBusConfig};
use crate::drive;
use crate::engine;
use crate::engine::{SimConfig, SimEngine, SimResult};
use crate::event::{Event, EventKind};
use crate::ids::{JobId, TaskId};
use crate::job::Job;
use crate::platform;
use crate::platform::{PlatformConfig, PlatformError};
use crate::replay;
use crate::replay::{ReplayJob, ReplayTask, WorkloadInput};
use crate::scheduler::{ReevaluationPolicy, Scheduler};
use crate::search;
use crate::sim;
use crate::sim::Sim;
use crate::sound;
use crate::text;
use crate::time::Nanos;
use vstd::prelude::*;

verus! {

/// Why an experiment cannot be run.
#[derive(Debug)]
pub enum RunError {
    /// The description of the platform stands for no configuration.
    Platform(PlatformError),
    /// The workload does not fit together.
    Workload(String),
    /// The algorithm has no implementation.
    NoScheduler(SchedulerKind),
}

/// Whether devices, links and buses are those that a description stands for.
pub open spec fn builds(
    p: &PlatformConfig,
    devices: Seq<DeviceConfig>,
    links: Seq<InterconnectConfig>,
    buses: Seq<SharedBusConfig>,
) -> bool {
    &&& p.builds_devices(devices)
    &&& p.builds_links(devices, links)
    &&& p.builds_buses(buses)
}

/// Whether a text says what is wrong with a description: first with its
/// devices, then with its links, then with its buses.
pub open spec fn faulty(p: &PlatformConfig, fault: Seq<char>) -> bool {
    platform::first_device_fault(p.device@) == Some(fault) || exists|devices: Seq<DeviceConfig>|
        {
            &&& #[trigger] p.builds_devices(devices)
            &&& {
                ||| platform::first_link_fault(p.interconnect@, devices, p.shared_bus@) == Some(
                    fault,
                )
                ||| platform::first_link_fault(p.interconnect@, devices, p.shared_bus@) is None
                    && platform::first_bus_fault(p.shared_bus@) == Some(fault)
            }
        }
}

/// Whether a simulation is another one with a workload to arrive.
pub open spec fn loaded(s: Sim, workload: &WorkloadInput, t: Sim) -> bool {
    match workload {
        WorkloadInput::Synthetic { tasks } => t == (Sim {
            tasks: s.tasks + tasks@,
            ..s
        }).first_released((s.tasks.len() + tasks@.len()) as int),
        WorkloadInput::Replay(replay) => {
            &&& replay.first_unknown() is None
            &&& t == replay::replayed(
                Sim { tasks: s.tasks + replay::made_of_all(replay.tasks@), ..s },
                replay.tasks@,
                replay.jobs@,
            )
        },
    }
}

/// The number of tasks of a workload.
pub open spec fn task_count(workload: &WorkloadInput) -> nat {
    match workload {
        WorkloadInput::Synthetic { tasks } => tasks@.len(),
        WorkloadInput::Replay(replay) => replay.tasks@.len(),
    }
}

/// Builds the platform and an engine on it, and lets the workload arrive
/// there.
pub fn prepare_run(platform: &PlatformConfig, workload: WorkloadInput, seed: u64) -> (engine: Result<
    SimEngine,
    RunError,
>)
    requires
        platform.fits(),
        platform.device@.len() <= u32::MAX,
        task_count(&workload) <= u32::MAX,
    ensures
        match engine {
            Ok(e) => {
                &&& e.wf()
                &&& exists|
                    devices: Seq<DeviceConfig>,
                    links: Seq<InterconnectConfig>,
                    buses: Seq<SharedBusConfig>,
                |
                    #[trigger] builds(platform, devices, links, buses) && loaded(
                        sim::initial(
                            (platform.simulation.duration_ms * 1_000_000) as u64,
                            devices,
                            links,
                            buses,
                        ),
                        &workload,
                        e@,
                    )
            },
            Err(RunError::Platform(e)) => faulty(platform, e.text()),
            Err(RunError::NoScheduler(_)) => false,
            Err(RunError::Workload(e)) => {
                &&& exists|
                    devices: Seq<DeviceConfig>,
                    links: Seq<InterconnectConfig>,
                    buses: Seq<SharedBusConfig>,
                | #[trigger] builds(platform, devices, links, buses)
                &&& workload matches WorkloadInput::Replay(replay)
                &&& replay.first_unknown() matches Some(i)
                &&& e@ == "replay job references unknown task "@ + text::decimal(
                    replay.jobs@[i].task_id as nat,
                )
            },
        },
{
    let devices: Vec<DeviceConfig> = match platform.build_devices() {
        Ok(list) => list,
        Err(e) => {
            return Err(RunError::Platform(e));
        },
    };
    let ghost d = devices@;
    proof {
        assert(platform.builds_devices(d));
    }
    let links: Vec<InterconnectConfig> = match platform.build_interconnects(&devices) {
        Ok(list) => list,
        Err(e) => {
            return Err(RunError::Platform(e));
        },
    };
    let buses: Vec<SharedBusConfig> = match platform.build_buses() {
        Ok(list) => list,
        Err(e) => {
            return Err(RunError::Platform(e));
        },
    };
    proof {
        assert(builds(platform, d, links@, buses@));
    }
    let config = SimConfig { duration_ns: platform.duration_ns(), seed };
    let mut engine: SimEngine = SimEngine::new(config, devices, links, buses);
    let ghost first = engine@;
    match workload {
        WorkloadInput::Synthetic { tasks } => {
            engine.register_tasks(tasks);
            engine.schedule_initial_arrivals();
        },
        WorkloadInput::Replay(replay) => match replay::schedule_replay(&mut engine, replay) {
            Ok(_) => {},
            Err(e) => {
                return Err(RunError::Workload(e));
            },
        },
    }
    proof {
        assert(loaded(first, &workload, engine@));
    }
    Ok(engine)
}

/// Runs an engine with a scheduler that has not been used before. An algorithm
/// without an implementation leaves the engine as it is.
pub fn run_with(engine: &mut SimEngine, kind: SchedulerKind) -> (result: Result<(), RunError>)
    requires
        old(engine).wf(),
    ensures
        final(engine).wf(),
        match result {
            Ok(_) => exists|fresh: AnyScheduler, used: AnyScheduler|
                fresh.kind() == kind && fresh.is_fresh() && #[trigger] fresh.drives(
                    old(engine)@,
                    used,
                    final(engine)@,
                ),
            Err(e) => kind is Gcaps && e == RunError::NoScheduler(kind) && final(engine)@ == old(
                engine,
            )@,
        },
{
    match catalog::build_scheduler(kind) {
        Some(fresh) => {
            let mut scheduler: AnyScheduler = fresh;
            scheduler.run(engine);
            Ok(())
        },
        None => Err(RunError::NoScheduler(kind)),
    }
}

proof fn lemma_first_released(s: Sim, n: int)
    ensures
        s.first_released(n).tally == s.tally,
    decreases n,
{
    if n > 0 {
        lemma_first_released(s, n - 1);
    }
}

proof fn lemma_replayed(s: Sim, tasks: Seq<ReplayTask>, jobs: Seq<ReplayJob>)
    requires
        sound::sound(s),
        s.now == 0,
    ensures
        sound::sound(replay::replayed(s, tasks, jobs)),
        replay::replayed(s, tasks, jobs).now == 0,
        replay::replayed(s, tasks, jobs).tally == s.tally,
    decreases jobs.len(),
{
    if jobs.len() > 0 {
        lemma_replayed(s, tasks, jobs.drop_last());
        let m = replay::replayed(s, tasks, jobs.drop_last());
        let job = jobs.last();
        let id = JobId(m.jobs.len() as u64);
        let task_id = TaskId(job.task_id);
        let deadline = replay::deadline_of(tasks, job);
        let priority = tasks[search::last_where(
            tasks,
            replay::numbered(job.task_id),
        )->0].priority;
        let fresh = Job::fresh(id, task_id, job.release_ns, deadline, job.actual_exec_ns, priority);
        sound::law_new_job_keeps_soundness(m, fresh);
        let a = m.with_new_job(fresh);
        let arrival = EventKind::TaskArrival { task_id, job_id: id };
        sound::law_scheduling_keeps_soundness(a, job.release_ns, arrival);
        let b = a.scheduled(job.release_ns, arrival);
        let check = EventKind::DeadlineCheck { job_id: id, expected_version: 0 };
        sound::law_scheduling_keeps_soundness(b, arith::sat_add(deadline, 1), check);
    }
}

/// An experiment starts in a sound state with nothing recorded.
pub proof fn law_experiments_start_sound(
    duration: Nanos,
    devices: Seq<DeviceConfig>,
    links: Seq<InterconnectConfig>,
    buses: Seq<SharedBusConfig>,
    workload: WorkloadInput,
    start: Sim,
)
    requires
        devices.len() <= u32::MAX,
        loaded(sim::initial(duration, devices, links, buses), &workload, start),
    ensures
        sound::sound(start),
        sound::recorded(start),
{
    let s = sim::initial(duration, devices, links, buses);
    let m = match workload {
        WorkloadInput::Synthetic { tasks } => Sim { tasks: s.tasks + tasks@, ..s },
        WorkloadInput::Replay(replay) => Sim {
            tasks: s.tasks + replay::made_of_all(replay.tasks@),
            ..s
        },
    };
    sound::law_initial_state_is_sound(duration, devices, links, buses);
    sound::law_registration_keeps_soundness(s, m.tasks);
    match workload {
        WorkloadInput::Synthetic { tasks } => {
            let n = (s.tasks.len() + tasks@.len()) as int;
            sound::law_initial_arrivals_keep_soundness(m, n);
            lemma_first_released(m, n);
        },
        WorkloadInput::Replay(replay) => {
            lemma_replayed(m, replay.tasks@, replay.jobs@);
        },
    }
}

/// Every state of an experiment is sound, and every record in it is true,
/// whatever the scheduler answers.
pub proof fn law_experiments_stay_sound(
    duration: Nanos,
    devices: Seq<DeviceConfig>,
    links: Seq<InterconnectConfig>,
    buses: Seq<SharedBusConfig>,
    workload: WorkloadInput,
    start: Sim,
    policy: ReevaluationPolicy,
    events: Seq<Event>,
    states: Seq<Sim>,
    n: int,
)
    requires
        devices.len() <= u32::MAX,
        loaded(sim::initial(duration, devices, links, buses), &workload, start),
        sim::is_run(start.begun(policy), events, states),
        0 <= n < states.len(),
    ensures
        sound::sound(states[n]),
        sound::recorded(states[n]),
        states[n].tally.completions.len() + states[n].tally.misses.len() <= states[n].jobs.len(),
{
    law_experiments_start_sound(duration, devices, links, buses, workload, start);
    sound::law_beginning_keeps_soundness(start, policy);
    sound::law_beginning_keeps_records(start, policy);
    sound::law_runs_keep_soundness(start.begun(policy), events, states, n);
    sound::law_runs_keep_records(start.begun(policy), events, states, n);
    sound::law_jobs_are_recorded_once(states[n]);
}

/// The outcome of an experiment is sound, and every record in it is true,
/// whatever the scheduler.
pub proof fn law_outcomes_are_sound<S: Scheduler>(
    duration: Nanos,
    devices: Seq<DeviceConfig>,
    links: Seq<InterconnectConfig>,
    buses: Seq<SharedBusConfig>,
    workload: WorkloadInput,
    start: Sim,
    mind: S,
    next: S,
    last: Sim,
)
    requires
        devices.len() <= u32::MAX,
        loaded(sim::initial(duration, devices, links, buses), &workload, start),
        drive::drives(mind, start, next, last),
    ensures
        sound::sound(last),
        sound::recorded(last),
        last.tally.completions.len() + last.tally.misses.len() <= last.jobs.len(),
{
    let (policy, events, states, minds) = choose|
        policy: ReevaluationPolicy,
        events: Seq<Event>,
        states: Seq<Sim>,
        minds: Seq<S>,
    |
        {
            &&& mind.wants(policy)
            &&& #[trigger] drive::is_run_by(start.begun(policy), events, states, minds)
            &&& minds[0] == mind
            &&& minds.last() == next
            &&& states.last() == last
        };
    law_experiments_stay_sound(
        duration,
        devices,
        links,
        buses,
        workload,
        start,
        policy,
        events,
        states,
        states.len() - 1,
    );
}

/// A platform stands for one list of devices, one of links and one of buses.
pub proof fn law_platforms_build_one_way(
    p: PlatformConfig,
    devices_a: Seq<DeviceConfig>,
    links_a: Seq<InterconnectConfig>,
    buses_a: Seq<SharedBusConfig>,
    devices_b: Seq<DeviceConfig>,
    links_b: Seq<InterconnectConfig>,
    buses_b: Seq<SharedBusConfig>,
)
    requires
        builds(&p, devices_a, links_a, buses_a),
        builds(&p, devices_b, links_b, buses_b),
    ensures
        devices_a == devices_b,
        links_a == links_b,
        buses_a == buses_b,
{
    assert forall|i: int| 0 <= i < devices_a.len() implies devices_a[i] == devices_b[i] by {
        assert(p.device@[i].describes(i, devices_a[i]));
        assert(p.device@[i].describes(i, devices_b[i]));
    }
    assert(devices_a =~= devices_b);
    assert(links_a =~= links_b);
    assert forall|i: int| 0 <= i < buses_a.len() implies buses_a[i] == buses_b[i] by {
        assert(p.shared_bus@[i].describes(i, buses_a[i]));
        assert(p.shared_bus@[i].describes(i, buses_b[i]));
    }
    assert(buses_a =~= buses_b);
}

/// Two experiments with the same platform, workload and algorithm end in the
/// same state: with the same jobs, the same completions and misses, the same
/// makespan and the same transfers.
pub proof fn law_experiments_agree(
    p: PlatformConfig,
    workload: WorkloadInput,
    devices_a: Seq<DeviceConfig>,
    links_a: Seq<InterconnectConfig>,
    buses_a: Seq<SharedBusConfig>,
    start_a: Sim,
    a: AnyScheduler,
    next_a: AnyScheduler,
    last_a: Sim,
    devices_b: Seq<DeviceConfig>,
    links_b: Seq<InterconnectConfig>,
    buses_b: Seq<SharedBusConfig>,
    start_b: Sim,
    b: AnyScheduler,
    next_b: AnyScheduler,
    last_b: Sim,
)
    requires
        p.device@.len() <= u32::MAX,
        builds(&p, devices_a, links_a, buses_a),
        loaded(
            sim::initial(
                (p.simulation.duration_ms * 1_000_000) as u64,
                devices_a,
                links_a,
                buses_a,
            ),
            &workload,
            start_a,
        ),
        a.is_fresh(),
        a.drives(start_a, next_a, last_a),
        builds(&p, devices_b, links_b, buses_b),
        loaded(
            sim::initial(
                (p.simulation.duration_ms * 1_000_000) as u64,
                devices_b,
                links_b,
                buses_b,
            ),
            &workload,
            start_b,
        ),
        b.is_fresh(),
        b.drives(start_b, next_b, last_b),
        a.kind() == b.kind(),
    ensures
        start_a == start_b,
        last_a == last_b,
{
    law_platforms_build_one_way(
        p,
        devices_a,
        links_a,
        buses_a,
        devices_b,
        links_b,
        buses_b,
    );
    law_experiments_start_sound(
        (p.simulation.duration_ms * 1_000_000) as u64,
        devices_a,
        links_a,
        buses_a,
        workload,
        start_a,
    );
    catalog::law_outcomes_agree(start_a, a, next_a, last_a, b, next_b, last_b);
}

/// The reported outcome follows from the state that an experiment ends in.
pub proof fn law_reports_agree(last: Sim, a: SimResult, b: SimResult)
    requires
        engine::reports(last, &a),
        engine::reports(last, &b),
    ensures
        a.total_jobs == b.total_jobs,
        a.completed_jobs == b.completed_jobs,
        a.deadline_misses == b.deadline_misses,
        a.miss_ratio == b.miss_ratio,
        a.schedulable == b.schedulable,
        a.makespan == b.makespan,
        a.avg_response_time == b.avg_response_time,
        a.worst_response_time == b.worst_response_time,
        a.events_processed == b.events_processed,
        a.per_device_utilization@ == b.per_device_utilization@,
        a.transfer_overhead == b.transfer_overhead,
        a.blocking_breakdown == b.blocking_breakdown,
        a.preemption_count == b.preemption_count,
        a.migration_count == b.migration_count,
        a.bus_contention_ratio == b.bus_contention_ratio,
        a.energy_picojoules == b.energy_picojoules,
{
}

} // verus!

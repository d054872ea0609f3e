//! Replayed workloads: recorded tasks and jobs instead of generated ones.

use crate::arith;
use crate::engine::SimEngine;
use crate::event::EventKind;
use crate::ids::{JobId, TaskId};
use crate::job::Job;
use crate::json;
use crate::search;
use crate::sim::Sim;
use crate::task;
use crate::task::{ArrivalModel, CriticalityLevel, DeviceType, ExecTimes, Task};
use crate::text;
use crate::time::Nanos;
use vstd::prelude::*;
use vstd::string::*;

verus! {

/// A recorded task.
#[derive(Debug)]
pub struct ReplayTask {
    pub task_id: u32,
    pub name: String,
    pub priority: u32,
    /// Relative deadline.
    pub deadline_ns: Nanos,
    pub criticality: CriticalityLevel,
    pub exec_times: ExecTimes,
    pub affinity: Vec<DeviceType>,
    pub data_size: u64,
}

/// A recorded job.
#[derive(Debug, Clone, Copy, PartialEq, Eq, Structural)]
pub struct ReplayJob {
    pub task_id: u32,
    pub release_ns: Nanos,
    /// Absolute deadline, by default the release plus the deadline of the
    /// task.
    pub absolute_deadline_ns: Option<Nanos>,
    /// Execution time, by default that of the task.
    pub actual_exec_ns: Option<Nanos>,
}

/// An approximation that was made when a workload was recorded.
#[derive(Debug)]
pub struct ReplayAssumption {
    pub code: String,
    pub detail: String,
}

/// Where a workload comes from.
#[derive(Debug)]
pub struct ReplayMetadata {
    pub source: Option<String>,
    pub assumptions: Vec<ReplayAssumption>,
}

/// A recorded workload.
#[derive(Debug)]
pub struct ReplayWorkload {
    pub tasks: Vec<ReplayTask>,
    pub jobs: Vec<ReplayJob>,
    pub metadata: ReplayMetadata,
}

/// What to simulate.
#[derive(Debug)]
pub enum WorkloadInput {
    /// Generated periodic tasks.
    Synthetic { tasks: Vec<Task> },
    /// Recorded tasks and jobs.
    Replay(ReplayWorkload),
}

/// Whether a task has a number.
pub open spec fn numbered(id: u32) -> spec_fn(ReplayTask) -> bool {
    |t: ReplayTask| t.task_id == id
}

/// Whether a task is the one that a recorded task stands for: it arrives only
/// when a recorded job does.
pub open spec fn stands_for(recorded: ReplayTask, made: Task) -> bool {
    &&& made.id == TaskId(recorded.task_id)
    &&& made.name@ == recorded.name@
    &&& made.priority == recorded.priority
    &&& made.arrival is Aperiodic
    &&& made.deadline == recorded.deadline_ns
    &&& made.criticality == recorded.criticality
    &&& made.exec_times@ == recorded.exec_times@
    &&& made.affinity@ == recorded.affinity@
    &&& made.data_size == recorded.data_size
}

/// The task that a recorded task becomes.
pub open spec fn made_of(recorded: ReplayTask) -> Task {
    Task {
        id: TaskId(recorded.task_id),
        name: recorded.name,
        priority: recorded.priority,
        arrival: ArrivalModel::Aperiodic,
        deadline: recorded.deadline_ns,
        criticality: recorded.criticality,
        exec_times: recorded.exec_times,
        affinity: recorded.affinity,
        data_size: recorded.data_size,
    }
}

/// The tasks that recorded tasks become.
pub open spec fn made_of_all(recorded: Seq<ReplayTask>) -> Seq<Task> {
    Seq::new(recorded.len(), |i: int| made_of(recorded[i]))
}

/// The place that a task number is changed to, the last one of that number.
pub open spec fn new_number(tasks: Seq<ReplayTask>, id: u32) -> u32 {
    match search::last_where(tasks, numbered(id)) {
        Some(i) => i as u32,
        None => id,
    }
}

/// Finds the last task of a number.
fn find_task(tasks: &Vec<ReplayTask>, id: u32) -> (place: Option<usize>)
    ensures
        match place {
            Some(i) => i < tasks@.len() && search::last_where(tasks@, numbered(id)) == Some(
                i as int,
            ),
            None => search::last_where(tasks@, numbered(id)) is None,
        },
{
    let mut n: usize = tasks.len();
    proof {
        assert(tasks@.take(n as int) =~= tasks@);
    }
    while n > 0
        invariant
            n <= tasks@.len(),
            search::last_where(tasks@, numbered(id)) == search::last_where(
                tasks@.take(n as int),
                numbered(id),
            ),
        decreases n,
    {
        proof {
            assert(tasks@.take(n as int).drop_last() =~= tasks@.take(n as int - 1));
        }
        if tasks[n - 1].task_id == id {
            return Some(n - 1);
        }
        n = n - 1;
    }
    None
}

/// Turns recorded tasks into tasks.
fn make_tasks(recorded: Vec<ReplayTask>) -> (made: Vec<Task>)
    ensures
        made@ == made_of_all(recorded@),
{
    let ghost all = recorded@;
    let mut rest: Vec<ReplayTask> = recorded;
    let mut backwards: Vec<Task> = Vec::new();
    while rest.len() > 0
        invariant
            rest@.len() <= all.len(),
            rest@ =~= all.take(rest@.len() as int),
            backwards@ =~= made_of_all(all.skip(rest@.len() as int)).reverse(),
        decreases rest@.len(),
    {
        if let Some(r) = rest.pop() {
            let ReplayTask {
                task_id,
                name,
                priority,
                deadline_ns,
                criticality,
                exec_times,
                affinity,
                data_size,
            } = r;
            backwards.push(
                Task {
                    id: TaskId(task_id),
                    name,
                    priority,
                    arrival: ArrivalModel::Aperiodic,
                    deadline: deadline_ns,
                    criticality,
                    exec_times,
                    affinity,
                    data_size,
                },
            );
        }
    }
    let mut made: Vec<Task> = Vec::new();
    while backwards.len() > 0
        invariant
            made@.len() + backwards@.len() == all.len(),
            made@ =~= made_of_all(all).take(made@.len() as int),
            backwards@ =~= made_of_all(all).skip(made@.len() as int).reverse(),
        decreases backwards@.len(),
    {
        if let Some(task) = backwards.pop() {
            made.push(task);
        }
    }
    made
}

/// The tasks of a simulation have no part in what recorded jobs make of it.
proof fn lemma_replayed_with_tasks(
    s: Sim,
    list: Seq<Task>,
    tasks: Seq<ReplayTask>,
    jobs: Seq<ReplayJob>,
)
    ensures
        replayed(Sim { tasks: list, ..s }, tasks, jobs) == (Sim {
            tasks: list,
            ..replayed(s, tasks, jobs)
        }),
        replayed(s, tasks, jobs).tasks == s.tasks,
    decreases jobs.len(),
{
    if jobs.len() > 0 {
        lemma_replayed_with_tasks(s, list, tasks, jobs.drop_last());
    }
}

/// Numbers tasks by their places, and jobs accordingly.
pub fn reindex_replay_task_ids(replay: ReplayWorkload) -> (out: ReplayWorkload)
    ensures
        out.metadata == replay.metadata,
        out.tasks@.len() == replay.tasks@.len(),
        forall|i: int|
            0 <= i < out.tasks@.len() ==> #[trigger] out.tasks@[i] == (ReplayTask {
                task_id: i as u32,
                ..replay.tasks@[i]
            }),
        out.jobs@.len() == replay.jobs@.len(),
        forall|k: int|
            0 <= k < out.jobs@.len() ==> #[trigger] out.jobs@[k] == (ReplayJob {
                task_id: new_number(replay.tasks@, replay.jobs@[k].task_id),
                ..replay.jobs@[k]
            }),
{
    let ghost before = replay;
    let ReplayWorkload { tasks, jobs, metadata } = replay;
    let mut tasks: Vec<ReplayTask> = tasks;
    let mut jobs: Vec<ReplayJob> = jobs;
    let mut k: usize = 0;
    while k < jobs.len()
        invariant
            k <= jobs@.len(),
            jobs@.len() == before.jobs@.len(),
            tasks@ == before.tasks@,
            forall|j: int|
                0 <= j < k ==> #[trigger] jobs@[j] == (ReplayJob {
                    task_id: new_number(before.tasks@, before.jobs@[j].task_id),
                    ..before.jobs@[j]
                }),
            forall|j: int| k <= j < jobs@.len() ==> #[trigger] jobs@[j] == before.jobs@[j],
        decreases jobs@.len() - k,
    {
        let job: ReplayJob = jobs[k];
        if let Some(i) = find_task(&tasks, job.task_id) {
            jobs.set(k, ReplayJob { task_id: i as u32, ..job });
        }
        k = k + 1;
    }
    let mut i: usize = 0;
    while i < tasks.len()
        invariant
            i <= tasks@.len(),
            tasks@.len() == before.tasks@.len(),
            forall|j: int|
                0 <= j < i ==> #[trigger] tasks@[j] == (ReplayTask {
                    task_id: j as u32,
                    ..before.tasks@[j]
                }),
            forall|j: int| i <= j < tasks@.len() ==> #[trigger] tasks@[j] == before.tasks@[j],
        decreases tasks@.len() - i,
    {
        tasks[i].task_id = i as u32;
        i = i + 1;
    }
    ReplayWorkload { tasks, jobs, metadata }
}

impl ReplayWorkload {
    /// The tasks that are recorded.
    pub fn to_tasks(&self) -> (list: Vec<Task>)
        ensures
            list@.len() == self.tasks@.len(),
            forall|i: int|
                0 <= i < list@.len() ==> stands_for(self.tasks@[i], #[trigger] list@[i]),
    {
        let mut list: Vec<Task> = Vec::new();
        let mut i: usize = 0;
        while i < self.tasks.len()
            invariant
                i <= self.tasks@.len(),
                list@.len() == i,
                forall|k: int|
                    0 <= k < i ==> stands_for(self.tasks@[k], #[trigger] list@[k]),
            decreases self.tasks@.len() - i,
        {
            let recorded: &ReplayTask = &self.tasks[i];
            list.push(
                Task {
                    id: TaskId(recorded.task_id),
                    name: recorded.name.clone(),
                    priority: recorded.priority,
                    arrival: ArrivalModel::Aperiodic,
                    deadline: recorded.deadline_ns,
                    criticality: recorded.criticality,
                    exec_times: task::clone_exec_times(&recorded.exec_times),
                    affinity: task::clone_affinity(&recorded.affinity),
                    data_size: recorded.data_size,
                },
            );
            i = i + 1;
        }
        list
    }

    /// The jobs that are recorded.
    pub fn jobs(&self) -> (jobs: &[ReplayJob])
        ensures
            jobs@ == self.jobs@,
    {
        self.jobs.as_slice()
    }

    /// The place of the first job of an unknown task.
    pub open spec fn first_unknown(&self) -> Option<int> {
        search::first_where(self.jobs@, of_unknown_task(self.tasks@))
    }
}

/// Whether a job is of a task that is not recorded.
pub open spec fn of_unknown_task(tasks: Seq<ReplayTask>) -> spec_fn(ReplayJob) -> bool {
    |j: ReplayJob| search::last_where(tasks, numbered(j.task_id)) is None
}

/// The absolute deadline of a recorded job.
pub open spec fn deadline_of(tasks: Seq<ReplayTask>, job: ReplayJob) -> Nanos {
    match job.absolute_deadline_ns {
        Some(ns) => ns,
        None => arith::sat_add(
            job.release_ns,
            tasks[search::last_where(tasks, numbered(job.task_id))->0].deadline_ns,
        ),
    }
}

/// A simulation with recorded jobs to arrive.
pub open spec fn replayed(s: Sim, tasks: Seq<ReplayTask>, jobs: Seq<ReplayJob>) -> Sim
    decreases jobs.len(),
{
    if jobs.len() == 0 {
        s
    } else {
        let m = replayed(s, tasks, jobs.drop_last());
        let job = jobs.last();
        let id = JobId(m.jobs.len() as u64);
        let task_id = TaskId(job.task_id);
        let deadline = deadline_of(tasks, job);
        let priority = tasks[search::last_where(tasks, numbered(job.task_id))->0].priority;
        m.with_new_job(
            Job::fresh(id, task_id, job.release_ns, deadline, job.actual_exec_ns, priority),
        ).scheduled(job.release_ns, EventKind::TaskArrival { task_id, job_id: id }).scheduled(
            arith::sat_add(deadline, 1),
            EventKind::DeadlineCheck { job_id: id, expected_version: 0 },
        )
    }
}

/// Registers recorded tasks with an engine and schedules the arrivals and
/// deadline checks of recorded jobs. A job of an unknown task is an error; the
/// jobs before it are scheduled then.
pub fn schedule_replay(engine: &mut SimEngine, replay: ReplayWorkload) -> (result: Result<
    (),
    String,
>)
    requires
        old(engine).wf(),
        old(engine)@.now == 0,
        old(engine)@.tasks.len() + replay.tasks@.len() <= u32::MAX,
    ensures
        final(engine).wf(),
        ({
            let s = Sim {
                tasks: old(engine)@.tasks + made_of_all(replay.tasks@),
                ..old(engine)@
            };
            match (result, replay.first_unknown()) {
                (Ok(_), None) => final(engine)@ == replayed(s, replay.tasks@, replay.jobs@),
                (Err(e), Some(i)) => e@ == "replay job references unknown task "@ + text::decimal(
                    replay.jobs@[i].task_id as nat,
                ) && final(engine)@ == replayed(s, replay.tasks@, replay.jobs@.take(i)),
                _ => false,
            }
        }),
{
    let ghost s = engine@;
    let ghost more = made_of_all(replay.tasks@);
    proof {
        assert(replay.jobs@.take(0) =~= Seq::empty());
    }
    let mut k: usize = 0;
    let mut known: bool = true;
    while k < replay.jobs.len() && known
        invariant
            k <= replay.jobs@.len(),
            engine.wf(),
            s.now == 0,
            engine@.now == 0,
            engine@.tasks == s.tasks,
            engine@ == replayed(s, replay.tasks@, replay.jobs@.take(k as int)),
            forall|j: int|
                0 <= j < k ==> !of_unknown_task(replay.tasks@)(#[trigger] replay.jobs@[j]),
            !known ==> k < replay.jobs@.len() && of_unknown_task(replay.tasks@)(
                replay.jobs@[k as int],
            ),
        decreases replay.jobs@.len() - k, known as int,
    {
        let job: ReplayJob = replay.jobs[k];
        match find_task(&replay.tasks, job.task_id) {
            Some(place) => {
                proof {
                    assert(replay.jobs@.take(k as int + 1).drop_last() =~= replay.jobs@.take(
                        k as int,
                    ));
                }
                let task_id = TaskId(job.task_id);
                let deadline: Nanos = match job.absolute_deadline_ns {
                    Some(ns) => ns,
                    None => job.release_ns.saturating_add(replay.tasks[place].deadline_ns),
                };
                let id: JobId = engine.create_job(
                    task_id,
                    job.release_ns,
                    deadline,
                    job.actual_exec_ns,
                    replay.tasks[place].priority,
                );
                engine.schedule_event(
                    job.release_ns,
                    EventKind::TaskArrival { task_id, job_id: id },
                );
                engine.schedule_event(
                    deadline.saturating_add(1),
                    EventKind::DeadlineCheck { job_id: id, expected_version: 0 },
                );
                k = k + 1;
            },
            None => {
                known = false;
            },
        }
    }
    proof {
        lemma_replayed_with_tasks(
            s,
            s.tasks + more,
            replay.tasks@,
            replay.jobs@.take(k as int),
        );
        if known {
            assert(replay.jobs@.take(k as int) =~= replay.jobs@);
            search::lemma_not_found(replay.jobs@, of_unknown_task(replay.tasks@));
        } else {
            search::lemma_found(replay.jobs@, of_unknown_task(replay.tasks@), k as int);
        }
    }
    let ReplayWorkload { tasks, jobs, .. } = replay;
    engine.register_tasks(make_tasks(tasks));
    if known {
        Ok(())
    } else {
        let mut message: String = String::from_str("replay job references unknown task ");
        text::push_decimal(&mut message, jobs[k].task_id as u128);
        Err(message)
    }
}

/// The name of a workload in reports.
pub open spec fn source_text(workload: &WorkloadInput) -> Seq<char> {
    match workload {
        WorkloadInput::Synthetic { .. } => "synthetic"@,
        WorkloadInput::Replay(replay) => match replay.metadata.source {
            Some(source) => source@,
            None => "replay"@,
        },
    }
}

/// What a report says of a workload.
#[derive(Debug)]
pub struct WorkloadMetadataSnapshot {
    pub source: String,
    /// The approximations as a JSON array.
    pub assumptions_json: String,
    pub assumption_count: usize,
}

/// The approximations behind a workload.
pub open spec fn assumptions(workload: &WorkloadInput) -> Seq<(Seq<char>, Seq<char>)> {
    match workload {
        WorkloadInput::Synthetic { .. } => Seq::empty(),
        WorkloadInput::Replay(replay) => Seq::new(
            replay.metadata.assumptions@.len(),
            |i: int|
                (
                    replay.metadata.assumptions@[i].code@,
                    replay.metadata.assumptions@[i].detail@,
                ),
        ),
    }
}

/// Lists the approximations behind a workload.
pub fn list_assumptions(workload: &WorkloadInput) -> (list: Vec<(&str, &str)>)
    ensures
        json::texts(list@) == assumptions(workload),
{
    let mut list: Vec<(&str, &str)> = Vec::new();
    match workload {
        WorkloadInput::Synthetic { .. } => {},
        WorkloadInput::Replay(replay) => {
            let made: &Vec<ReplayAssumption> = &replay.metadata.assumptions;
            let mut i: usize = 0;
            while i < made.len()
                invariant
                    i <= made@.len(),
                    list@.len() == i,
                    forall|k: int|
                        0 <= k < i ==> (#[trigger] list@[k]).0@ == made@[k].code@ && list@[k].1@
                            == made@[k].detail@,
                decreases made@.len() - i,
            {
                list.push((made[i].code.as_str(), made[i].detail.as_str()));
                i = i + 1;
            }
        },
    }
    proof {
        assert(json::texts(list@) =~= assumptions(workload));
    }
    list
}

/// Describes a workload for reports.
pub fn workload_metadata_snapshot(workload: &WorkloadInput) -> (snapshot: WorkloadMetadataSnapshot)
    ensures
        snapshot.source@ == source_text(workload),
        snapshot.assumptions_json@ == json::assumptions_text(assumptions(workload)),
        snapshot.assumption_count == assumptions(workload).len(),
{
    let list: Vec<(&str, &str)> = list_assumptions(workload);
    let source: String = match workload {
        WorkloadInput::Synthetic { .. } => String::from_str("synthetic"),
        WorkloadInput::Replay(replay) => match &replay.metadata.source {
            Some(source) => source.clone(),
            None => String::from_str("replay"),
        },
    };
    proof {
        assert(json::texts(list@).len() == list@.len());
    }
    WorkloadMetadataSnapshot {
        source,
        assumptions_json: json::or_null(json::write_assumptions(&list)),
        assumption_count: list.len(),
    }
}

/// Where a workload comes from.
#[derive(Debug, Clone, Copy, PartialEq, Eq, Structural)]
pub enum WorkloadSource {
    KaramiProfile,
    OpenmpSpecialized,
    ReplayJson,
    ReplayCsv,
    Synthetic,
}

/// Chooses where a workload comes from, by the inputs that are given; recorded
/// tasks and jobs in tables are only taken together.
pub fn workload_source(
    karami_profile: bool,
    openmp_specialized: bool,
    replay_json: bool,
    replay_csv_tasks: bool,
    replay_csv_jobs: bool,
) -> (source: WorkloadSource)
    ensures
        source is KaramiProfile <==> karami_profile,
        source is OpenmpSpecialized <==> openmp_specialized && !karami_profile,
        source is ReplayJson <==> replay_json && !openmp_specialized && !karami_profile,
        source is ReplayCsv <==> replay_csv_tasks && replay_csv_jobs && !replay_json
            && !openmp_specialized && !karami_profile,
{
    if karami_profile {
        WorkloadSource::KaramiProfile
    } else if openmp_specialized {
        WorkloadSource::OpenmpSpecialized
    } else if replay_json {
        WorkloadSource::ReplayJson
    } else if replay_csv_tasks && replay_csv_jobs {
        WorkloadSource::ReplayCsv
    } else {
        WorkloadSource::Synthetic
    }
}

/// Renumbered tasks are found by their numbers: every job of a known task
/// names the place of that task.
pub proof fn law_reindexed_tasks_are_found(tasks: Seq<ReplayTask>, id: u32)
    requires
        tasks.len() <= u32::MAX,
        search::last_where(tasks, numbered(id)) is Some,
    ensures
        new_number(tasks, id) < tasks.len(),
        tasks[new_number(tasks, id) as int].task_id == id,
{
    search::law_last_where(tasks, numbered(id));
}

} // verus!

//! How simulations set out: idle platforms, workloads that are loaded, DAGs
//! that are registered, and schedulers that know nothing yet.

use crate::catalog::AnyScheduler;
use crate::dag::DagInstanceId;
use crate::dag_tracker;
use crate::device::{DeviceConfig, InterconnectConfig, SharedBusConfig};
use crate::drive;
use crate::experiment;
use crate::ids::{DeviceId, TaskId};
use crate::occurrence;
use crate::replay;
use crate::replay::WorkloadInput;
use crate::scheduler::{Action, ReevaluationPolicy, ReevaluationTrigger, Scheduler, Sight};
use crate::sim;
use crate::sim::Sim;
use crate::task::{DagTask, Task};
use crate::time::Nanos;
use vstd::prelude::*;

verus! {

/// A simulation starts at time zero in the low level, with idle devices and
/// empty queues, and nothing known, pending or counted.
pub proof fn law_simulations_start_idle(
    duration: Nanos,
    devices: Seq<DeviceConfig>,
    links: Seq<InterconnectConfig>,
    buses: Seq<SharedBusConfig>,
    i: int,
)
    ensures
        ({
            let s = sim::initial(duration, devices, links, buses);
            &&& s.duration == duration
            &&& s.devices == devices
            &&& s.links == links
            &&& s.buses == buses
            &&& s.now == 0
            &&& s.seq == 0
            &&& s.level is Lo
            &&& s.events.len() == 0
            &&& s.jobs.len() == 0
            &&& s.tasks.len() == 0
            &&& s.dags.len() == 0
            &&& s.running.len() == devices.len()
            &&& s.queues.len() == devices.len()
            &&& s.busy.len() == devices.len()
            &&& 0 <= i < devices.len() ==> s.running[i] is None && s.queues[i].len() == 0
                && s.busy[i] == 0
            &&& s.transfers.active.len() == 0
            &&& s.transfers.pending.len() == 0
            &&& s.transfers.stats.total_transfer_time_ns == 0
            &&& s.transfers.stats.migration_transfer_time_ns == 0
            &&& s.transfers.stats.bus_wait_time_ns == 0
            &&& s.transfers.stats.bus_transfer_requests == 0
            &&& s.transfers.stats.bus_transfer_contentions == 0
            &&& s.tally.total == 0
            &&& s.tally.completed == 0
            &&& s.tally.missed == 0
            &&& s.tally.completions.len() == 0
            &&& s.tally.misses.len() == 0
            &&& s.processed == 0
            &&& s.preemptions == 0
            &&& s.migrations == 0
        }),
{
}

/// Whether a simulation has a new job of a task that is released at a time.
pub open spec fn has_new_job(t: Sim, task_id: TaskId, time: Nanos) -> bool {
    exists|k: int|
        0 <= k < t.jobs.len() && ((#[trigger] t.jobs[k]) matches Some(job) && job.task_id == task_id
            && job.release_time == time && job.state is Released)
}

proof fn lemma_first_jobs(s: Sim, n: int, m: int)
    requires
        0 <= m < n <= s.tasks.len(),
        s.tasks.len() <= u32::MAX,
    ensures
        !(s.tasks[m].arrival is Aperiodic) ==> has_new_job(
            s.first_released(n),
            TaskId(m as u32),
            s.now,
        ),
    decreases n,
{
    occurrence::law_first_jobs(s, n - 1);
    let before = s.first_released(n - 1);
    let after = s.first_released(n);
    if !(s.tasks[m].arrival is Aperiodic) {
        if m < n - 1 {
            lemma_first_jobs(s, n - 1, m);
            let k = choose|k: int|
                0 <= k < before.jobs.len() && ((#[trigger] before.jobs[k]) matches Some(job)
                    && job.task_id == TaskId(m as u32) && job.release_time == s.now && job.state
                    is Released);
            assert(after.jobs[k] == before.jobs[k]);
        } else {
            let k = before.jobs.len() as int;
            assert(after.jobs[k] matches Some(job) && job.task_id == TaskId(m as u32)
                && job.release_time == s.now && job.state is Released);
        }
    }
}

proof fn lemma_first_tasks(s: Sim, n: int)
    requires
        0 <= n <= s.tasks.len(),
    ensures
        s.first_released(n).tasks == s.tasks,
    decreases n,
{
    if n > 0 {
        lemma_first_tasks(s, n - 1);
    }
}

/// A generated workload adds its tasks, and each task that arrives with a
/// period has a first job, released now.
pub proof fn law_generated_workloads_arrive(
    s: Sim,
    tasks: Vec<Task>,
    t: Sim,
    m: int,
)
    requires
        experiment::loaded(s, &WorkloadInput::Synthetic { tasks }, t),
        s.tasks.len() + tasks@.len() <= u32::MAX,
        0 <= m < s.tasks.len() + tasks@.len(),
    ensures
        t.tasks =~= s.tasks + tasks@,
        !(t.tasks[m].arrival is Aperiodic) ==> has_new_job(t, TaskId(m as u32), s.now),
{
    let all = Sim { tasks: s.tasks + tasks@, ..s };
    lemma_first_tasks(all, all.tasks.len() as int);
    lemma_first_jobs(all, all.tasks.len() as int, m);
}

proof fn lemma_replayed(s: Sim, tasks: Seq<replay::ReplayTask>, jobs: Seq<replay::ReplayJob>)
    ensures
        replay::replayed(s, tasks, jobs).jobs.len() == s.jobs.len() + jobs.len(),
        replay::replayed(s, tasks, jobs).tasks == s.tasks,
        forall|k: int|
            0 <= k < jobs.len() ==> (#[trigger] replay::replayed(s, tasks, jobs).jobs[s.jobs.len()
                + k] matches Some(job) && job.task_id.0 == jobs[k].task_id && job.release_time
                == jobs[k].release_ns && job.actual_exec_ns == jobs[k].actual_exec_ns),
    decreases jobs.len(),
{
    if jobs.len() > 0 {
        let rest = jobs.drop_last();
        lemma_replayed(s, tasks, rest);
        let m = replay::replayed(s, tasks, rest);
        let t = replay::replayed(s, tasks, jobs);
        assert forall|k: int| 0 <= k < jobs.len() implies (#[trigger] t.jobs[s.jobs.len() + k]
            matches Some(job) && job.task_id.0 == jobs[k].task_id && job.release_time
            == jobs[k].release_ns && job.actual_exec_ns == jobs[k].actual_exec_ns) by {
            if k < rest.len() {
                assert(t.jobs[s.jobs.len() + k] == m.jobs[s.jobs.len() + k]);
                assert(rest[k] == jobs[k]);
            }
        }
    }
}

/// A recorded workload adds its tasks, which arrive on demand, and a job for
/// each recorded one, in order.
pub proof fn law_recorded_workloads_arrive(
    s: Sim,
    recorded: replay::ReplayWorkload,
    t: Sim,
    k: int,
)
    requires
        experiment::loaded(s, &WorkloadInput::Replay(recorded), t),
        0 <= k < recorded.jobs@.len(),
    ensures
        t.tasks.len() == s.tasks.len() + recorded.tasks@.len(),
        t.jobs.len() == s.jobs.len() + recorded.jobs@.len(),
        t.jobs[s.jobs.len() + k] matches Some(job) && job.task_id.0 == recorded.jobs@[k].task_id
            && job.release_time == recorded.jobs@[k].release_ns && job.actual_exec_ns
            == recorded.jobs@[k].actual_exec_ns,
{
    let all = Sim { tasks: s.tasks + replay::made_of_all(recorded.tasks@), ..s };
    lemma_replayed(all, recorded.tasks@, recorded.jobs@);
}

/// The jobs of DAG nodes are new one after the other, and arrive now; a task
/// that is not known has none.
pub proof fn law_nodes_arrive_in_turn(
    s: Sim,
    tasks: Seq<TaskId>,
    next: TaskId,
    instance: DagInstanceId,
)
    ensures
        s.nodes_released(Seq::empty(), instance) == s,
        next.0 >= s.tasks.len() ==> s.nodes_released(tasks.push(next), instance)
            == s.nodes_released(tasks, instance),
        next.0 < s.tasks.len() ==> occurrence::releases(
            s.nodes_released(tasks, instance),
            s.nodes_released(tasks.push(next), instance),
            next,
            s.now as int,
            s.provenance(instance, next),
        ),
{
    assert(tasks.push(next).drop_last() =~= tasks);
    sim::lemma_released_keeps(s, tasks, instance);
    occurrence::lemma_releases(
        s.nodes_released(tasks, instance),
        next,
        s.now,
        s.provenance(instance, next),
    );
}

/// A registered DAG adds a proxy task for each node, behind the tasks there
/// are, and a DAG with nothing satisfied; the jobs of the nodes that no edge
/// leads to arrive now.
pub proof fn law_registered_dags_set_out(before: Sim, dag: DagTask, after: Sim, i: int) -> (mid: Sim)
    requires
        sim::registers_one(before, dag, after),
        0 <= i < dag.nodes@.len(),
    ensures
        after.tasks.len() == before.tasks.len() + dag.nodes@.len(),
        dag_tracker::is_proxy(
            after.tasks[before.tasks.len() + i],
            dag,
            dag.nodes@[i],
            TaskId((before.tasks.len() + i) as u32),
            DagInstanceId(before.dags.len() as u64),
        ),
        mid == (Sim {
            tasks: after.tasks,
            dags: before.dags.push(dag_tracker::registered(dag, before.tasks.len())),
            ..before
        }),
        after == mid.nodes_released(
            dag_tracker::registered(dag, before.tasks.len()).ready(dag.nodes@.len() as int),
            DagInstanceId(before.dags.len() as u64),
        ),
{
    Sim {
        tasks: after.tasks,
        dags: before.dags.push(dag_tracker::registered(dag, before.tasks.len())),
        ..before
    }
}

/// After the criticality level has risen, the scheduler is asked about each
/// device that is idle when its turn comes, and sees the state of that moment.
pub proof fn law_idle_devices_are_asked_about<S: Scheduler>(
    s: Sim,
    n: int,
    mind: S,
    answers: Seq<Seq<Action>>,
    after: S,
) -> (mid: S)
    requires
        n >= 0,
        n + 1 < answers.len(),
        drive::about_idle_devices(s, n + 1, mind, answers, after),
    ensures
        drive::about_idle_devices(s, n, mind, answers, mid),
        s.polled(answers, n).running[n] is Some ==> mid == after,
        s.polled(answers, n).running[n] is None ==> mid.answers_idle(
            DeviceId(n as u32),
            drive::sight(s.polled(answers, n)),
            answers[n + 1],
            &after,
        ),
{
    let before = s.polled(answers, n);
    if before.running[n] is None {
        choose|mid: S|
            drive::about_idle_devices(s, n, mind, answers, mid) && #[trigger] drive::about_idle(
                before,
                DeviceId(n as u32),
                mid,
                sim::answer(answers, n + 1),
                after,
            )
    } else {
        after
    }
}

/// A scheduler that has not been used knows no job, task, plan or device. EDF-VD
/// halves relative deadlines; least laxity first asks to reevaluate every 5 us,
/// and at events at least 1 us apart.
pub proof fn law_fresh_schedulers_know_nothing(s: AnyScheduler, id: u64)
    requires
        s.is_fresh(),
    ensures
        s matches AnyScheduler::Edfvd(m) ==> m.num() == 1 && m.den() == 2,
        s matches AnyScheduler::Llf(m) ==> m.policy() == (ReevaluationPolicy::Hybrid {
            interval_ns: 5_000,
            min_interval_ns: 1_000,
        }) && !m.progress().remaining.contains_key(id) && !m.progress().elapsed.contains_key(id),
        s matches AnyScheduler::Cpedf(m) ==> !m.progress().remaining.contains_key(id)
            && !m.progress().elapsed.contains_key(id) && !m.stages().contains_key(id),
        s matches AnyScheduler::Heft(m) ==> !m.plans().contains_key(id),
        s matches AnyScheduler::Match(m) ==> !m.mapping().contains_key(id)
            && !m.allocations().contains_key(id),
        s matches AnyScheduler::Federated(m) ==> !m.slots().contains_key(id as u128),
        s matches AnyScheduler::Gang(m) ==> m.active_task is None,
{
}

/// Only least laxity first asks for reevaluations.
pub proof fn law_only_laxity_is_reevaluated(s: AnyScheduler, policy: ReevaluationPolicy)
    ensures
        match s {
            AnyScheduler::Fp(m) => m.wants(policy) ==> policy is Disabled,
            AnyScheduler::Edf(m) => m.wants(policy) ==> policy is Disabled,
            AnyScheduler::Edfvd(m) => m.wants(policy) ==> policy is Disabled,
            AnyScheduler::Llf(m) => m.wants(policy) ==> policy == m.policy(),
            AnyScheduler::Heft(m) => m.wants(policy) ==> policy is Disabled,
            AnyScheduler::Cpedf(m) => m.wants(policy) ==> policy is Disabled,
            AnyScheduler::Federated(m) => m.wants(policy) ==> policy is Disabled,
            AnyScheduler::GlobalEdf(m) => m.wants(policy) ==> policy is Disabled,
            AnyScheduler::Gang(m) => m.wants(policy) ==> policy is Disabled,
            AnyScheduler::Xsched(m) => m.wants(policy) ==> policy is Disabled,
            AnyScheduler::Gpreempt(m) => m.wants(policy) ==> policy is Disabled,
            AnyScheduler::Rtgpu(m) => m.wants(policy) ==> policy is Disabled,
            AnyScheduler::Match(m) => m.wants(policy) ==> policy is Disabled,
            AnyScheduler::GpuPreemptivePriority(m) => m.wants(policy) ==> policy is Disabled,
        },
{
}

/// A scheduler other than least laxity first does nothing at a reevaluation, and
/// learns nothing from it.
pub proof fn law_others_do_nothing_at_reevaluations(
    s: AnyScheduler,
    trigger: ReevaluationTrigger,
    view: Sight,
    actions: Seq<Action>,
    after: AnyScheduler,
)
    ensures
        match (s, after) {
            (AnyScheduler::Fp(m), AnyScheduler::Fp(next)) => m.answers_reevaluation(
                trigger,
                view,
                actions,
                &next,
            ) ==> next == m && actions =~= seq![Action::NoOp],
            (AnyScheduler::Edf(m), AnyScheduler::Edf(next)) => m.answers_reevaluation(
                trigger,
                view,
                actions,
                &next,
            ) ==> next == m && actions =~= seq![Action::NoOp],
            (AnyScheduler::Edfvd(m), AnyScheduler::Edfvd(next)) => m.answers_reevaluation(
                trigger,
                view,
                actions,
                &next,
            ) ==> next == m && actions =~= seq![Action::NoOp],
            (AnyScheduler::Heft(m), AnyScheduler::Heft(next)) => m.answers_reevaluation(
                trigger,
                view,
                actions,
                &next,
            ) ==> next == m && actions =~= seq![Action::NoOp],
            (AnyScheduler::Cpedf(m), AnyScheduler::Cpedf(next)) => m.answers_reevaluation(
                trigger,
                view,
                actions,
                &next,
            ) ==> next == m && actions =~= seq![Action::NoOp],
            (AnyScheduler::Federated(m), AnyScheduler::Federated(next)) => m.answers_reevaluation(
                trigger,
                view,
                actions,
                &next,
            ) ==> next == m && actions =~= seq![Action::NoOp],
            (AnyScheduler::GlobalEdf(m), AnyScheduler::GlobalEdf(next)) => m.answers_reevaluation(
                trigger,
                view,
                actions,
                &next,
            ) ==> next == m && actions =~= seq![Action::NoOp],
            (AnyScheduler::Gang(m), AnyScheduler::Gang(next)) => m.answers_reevaluation(
                trigger,
                view,
                actions,
                &next,
            ) ==> next == m && actions =~= seq![Action::NoOp],
            (AnyScheduler::Xsched(m), AnyScheduler::Xsched(next)) => m.answers_reevaluation(
                trigger,
                view,
                actions,
                &next,
            ) ==> next == m && actions =~= seq![Action::NoOp],
            (AnyScheduler::Gpreempt(m), AnyScheduler::Gpreempt(next)) => m.answers_reevaluation(
                trigger,
                view,
                actions,
                &next,
            ) ==> next == m && actions =~= seq![Action::NoOp],
            (AnyScheduler::Rtgpu(m), AnyScheduler::Rtgpu(next)) => m.answers_reevaluation(
                trigger,
                view,
                actions,
                &next,
            ) ==> next == m && actions =~= seq![Action::NoOp],
            (AnyScheduler::Match(m), AnyScheduler::Match(next)) => m.answers_reevaluation(
                trigger,
                view,
                actions,
                &next,
            ) ==> next == m && actions =~= seq![Action::NoOp],
            (AnyScheduler::GpuPreemptivePriority(m), AnyScheduler::GpuPreemptivePriority(next)) => m.answers_reevaluation(
                trigger,
                view,
                actions,
                &next,
            ) ==> next == m && actions =~= seq![Action::NoOp],
            _ => true,
        },
{
}

} // verus!

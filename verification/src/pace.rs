//! What every transition of the simulation keeps: the platform, the tasks and
//! the clock stay as they are, and every event that is added uses up a
//! sequence number. The last of these is why a run ends.

use crate::dag::{DagInstanceId, DagProvenance, EdgeTransferId, SubTaskIdx};
use crate::event::{Event, EventKind};
use crate::ids::{BusId, DeviceId, JobId, TaskId};
use crate::job::{Job, JobState};
use crate::scheduler::Action;
use crate::sim;
use crate::sim::Sim;
use crate::time::Nanos;
use crate::transfer_manager::{JobTransferKind, ScheduledEvent};
use vstd::prelude::*;

verus! {

/// Whether every event that is pending in a state is pending in another one,
/// and what is pending there besides was scheduled later and does not end the
/// simulation.
pub open spec fn grows(s: Sim, t: Sim) -> bool {
    forall|e: Event|
        {
            &&& #[trigger] t.events.count(e) >= s.events.count(e)
            &&& t.events.count(e) > s.events.count(e) ==> e.seq >= s.seq && !(
            e.kind is SimulationEnd)
        }
}

/// Whether a state has the platform, tasks and clock of another one, and one
/// sequence number less for every event more.
pub open spec fn same_frame(s: Sim, t: Sim) -> bool {
    &&& t.duration == s.duration
    &&& t.now == s.now
    &&& t.tasks == s.tasks
    &&& t.devices == s.devices
    &&& t.links == s.links
    &&& t.buses == s.buses
    &&& t.policy == s.policy
    &&& t.generation == s.generation
    &&& t.processed == s.processed
    &&& t.seq >= s.seq
    &&& t.events.len() - s.events.len() == t.seq - s.seq
    &&& grows(s, t)
}

/// Whether no event of a list ends the simulation.
pub open spec fn without_end(list: Seq<ScheduledEvent>) -> bool {
    forall|i: int| 0 <= i < list.len() ==> !((#[trigger] list[i]).kind is SimulationEnd)
}

/// Whether a state has the frame of another one, and nothing more is counted.
pub open spec fn keeps(s: Sim, t: Sim) -> bool {
    &&& same_frame(s, t)
    &&& t.tally == s.tally
}

/// How many events can still come up.
pub open spec fn remaining_steps(s: Sim) -> int {
    2 * (u64::MAX - s.seq) + s.events.len()
}

proof fn keeps_scheduled_all(s: Sim, list: Seq<ScheduledEvent>)
    requires
        without_end(list),
    ensures
        keeps(s, s.scheduled_all(list)),
    decreases list.len(),
{
    if list.len() > 0 {
        keeps_scheduled_all(s, list.drop_last());
    }
}

proof fn keeps_started(s: Sim, id: JobId, d: DeviceId, penalty: Nanos)
    ensures
        keeps(s, s.started(id, d, penalty)),
{
}

proof fn keeps_sent(
    s: Sim,
    id: JobId,
    from: DeviceId,
    to: DeviceId,
    kind: JobTransferKind,
    state: JobState,
)
    ensures
        keeps(s, s.sent(id, from, to, kind, state)),
{
    assert forall|u: Sim, list: Seq<ScheduledEvent>| without_end(list) implies keeps(
        u,
        #[trigger] u.scheduled_all(list),
    ) by {
        keeps_scheduled_all(u, list);
    }
}

proof fn keeps_ended(s: Sim, id: JobId, state: JobState)
    ensures
        keeps(s, s.ended(id, state)),
{
    assert forall|u: Sim, list: Seq<ScheduledEvent>| without_end(list) implies keeps(
        u,
        #[trigger] u.scheduled_all(list),
    ) by {
        keeps_scheduled_all(u, list);
    }
}

proof fn keeps_preempted(s: Sim, victim: JobId, by: JobId, d: DeviceId, at_point: bool)
    ensures
        keeps(s, s.preempted(victim, by, d, at_point)),
{
    keeps_sent(s, by, s.origin(by)->0, d, JobTransferKind::Dispatch, JobState::Transferring);
    let model = crate::virtual_device::VirtualDeviceModel::of(s.devices[d.0 as int].preemption);
    keeps_started(s.suspended(victim, d), by, d, model.penalty_of());
}

proof fn keeps_migrated(s: Sim, id: JobId, from: DeviceId, to: DeviceId)
    ensures
        keeps(s, s.migrated(id, from, to)),
{
    keeps_sent(s, id, from, to, JobTransferKind::Migration, JobState::Migrating);
    keeps_sent(
        s.paused(id, from),
        id,
        from,
        to,
        JobTransferKind::Migration,
        JobState::Migrating,
    );
}

proof fn keeps_applied(s: Sim, action: Action, at: Option<DeviceId>)
    ensures
        keeps(s, s.applied(action, at)),
{
    reveal(Sim::applied);
    match action {
        Action::Dispatch { job_id, device_id } => {
            keeps_sent(
                s,
                job_id,
                s.origin(job_id)->0,
                device_id,
                JobTransferKind::Dispatch,
                JobState::Transferring,
            );
            keeps_started(s, job_id, device_id, 0);
        },
        Action::Preempt { victim, by, device_id } => {
            keeps_preempted(s, victim, by, device_id, at == Some(device_id));
        },
        Action::Migrate { job_id, from, to } => {
            keeps_migrated(s, job_id, from, to);
        },
        Action::Enqueue { .. } => {},
        Action::DropJob { job_id } => {
            keeps_ended(s, job_id, JobState::Dropped);
        },
        Action::NoOp => {},
    }
}

/// The scheduler's actions keep platform, tasks and clock.
pub proof fn law_actions_keep_frame(s: Sim, actions: Seq<Action>, at: Option<DeviceId>)
    ensures
        keeps(s, s.applied_all(actions, at)),
    decreases actions.len(),
{
    if actions.len() > 0 {
        law_actions_keep_frame(s, actions.drop_last(), at);
        keeps_applied(s.applied_all(actions.drop_last(), at), actions.last(), at);
    }
}

proof fn keeps_nodes_released(s: Sim, tasks: Seq<TaskId>, instance: DagInstanceId)
    ensures
        keeps(s, s.nodes_released(tasks, instance)),
    decreases tasks.len(),
{
    if tasks.len() > 0 {
        keeps_nodes_released(s, tasks.drop_last(), instance);
    }
}

proof fn keeps_edge_satisfied(s: Sim, edge: EdgeTransferId)
    ensures
        keeps(s, s.edge_satisfied(edge)),
{
    if edge.dag_instance_id.0 < s.dags.len() {
        let i = edge.dag_instance_id.0 as int;
        let (state, tasks) = s.dags[i].marked(edge.from_node, edge.to_node);
        keeps_nodes_released(
            Sim { dags: s.dags.update(i, state), ..s },
            tasks,
            edge.dag_instance_id,
        );
    }
}

proof fn keeps_handed_on(
    s: Sim,
    id: JobId,
    d: DeviceId,
    provenance: DagProvenance,
    to_node: SubTaskIdx,
    bytes: u64,
)
    ensures
        keeps(s, s.handed_on(id, d, provenance, to_node, bytes)),
{
    let edge = EdgeTransferId {
        dag_instance_id: provenance.dag_instance_id,
        from_node: provenance.node,
        to_node,
    };
    keeps_edge_satisfied(s, edge);
    assert forall|u: Sim, list: Seq<ScheduledEvent>| without_end(list) implies keeps(
        u,
        #[trigger] u.scheduled_all(list),
    ) by {
        keeps_scheduled_all(u, list);
    }
}

proof fn keeps_all_handed_on(
    s: Sim,
    id: JobId,
    d: DeviceId,
    provenance: DagProvenance,
    list: Seq<(SubTaskIdx, u64)>,
)
    ensures
        keeps(s, s.all_handed_on(id, d, provenance, list)),
    decreases list.len(),
{
    if list.len() > 0 {
        keeps_all_handed_on(s, id, d, provenance, list.drop_last());
        keeps_handed_on(
            s.all_handed_on(id, d, provenance, list.drop_last()),
            id,
            d,
            provenance,
            list.last().0,
            list.last().1,
        );
    }
}

/// A completion keeps platform, tasks and clock, and adds one record.
pub proof fn law_completions_add_one_record(s: Sim, id: JobId, d: DeviceId)
    requires
        s.job(id) is Some,
    ensures
        same_frame(s, s.completing(id, d)),
        s.completing(id, d).tally == (sim::Tally {
            completed: crate::arith::sat_add(s.tally.completed, 1),
            completions: s.tally.completions.push(
                crate::metrics::CompletionRecord {
                    job_id: id,
                    task_id: s.job(id)->0.task_id,
                    release_time: s.job(id)->0.release_time,
                    completion_time: s.now,
                },
            ),
            ..s.tally
        }),
{
    assert forall|u: Sim, p: DagProvenance, list: Seq<(SubTaskIdx, u64)>|
        keeps(u, #[trigger] u.all_handed_on(id, d, p, list)) by {
        keeps_all_handed_on(u, id, d, p, list);
    }
}

proof fn keeps_landed(s: Sim, id: JobId, d: DeviceId)
    ensures
        keeps(s, s.landed(id, d)),
{
    keeps_started(s, id, d, 0);
}

proof fn keeps_transferred(s: Sim, id: JobId, d: DeviceId)
    ensures
        keeps(s, s.transferred(id, d)),
{
    let (transfers, list) = s.transfers.completed(
        s.links,
        s.buses,
        crate::transfer_manager::TransferId::Job(id),
        s.now,
    );
    let u = Sim { transfers, ..s };
    keeps_scheduled_all(u, list);
    keeps_landed(u.scheduled_all(list), id, d);
}

proof fn keeps_edge_transferred(s: Sim, edge: EdgeTransferId)
    ensures
        keeps(s, s.edge_transferred(edge)),
{
    let (transfers, list) = s.transfers.completed(
        s.links,
        s.buses,
        crate::transfer_manager::TransferId::Edge(edge),
        s.now,
    );
    let u = Sim { transfers, ..s };
    keeps_scheduled_all(u, list);
    keeps_edge_satisfied(u.scheduled_all(list), edge);
}

proof fn keeps_arbitrated(s: Sim, bus: BusId)
    ensures
        keeps(s, s.arbitrated(bus)),
{
    assert forall|u: Sim, list: Seq<ScheduledEvent>| without_end(list) implies keeps(
        u,
        #[trigger] u.scheduled_all(list),
    ) by {
        keeps_scheduled_all(u, list);
    }
}

/// A missed deadline keeps platform, tasks and clock, and adds one record.
pub proof fn law_misses_add_one_record(s: Sim, id: JobId)
    ensures
        same_frame(s, s.missing(id)),
        s.missing(id).tally == (sim::Tally {
            missed: crate::arith::sat_add(s.tally.missed, 1),
            misses: s.tally.misses.push(
                crate::metrics::MissRecord {
                    job_id: id,
                    task_id: s.job(id)->0.task_id,
                    miss_time: s.now,
                },
            ),
            ..s.tally
        }),
{
    assert forall|u: Sim| keeps(u, #[trigger] u.ended(id, JobState::DeadlineMissed)) by {
        keeps_ended(u, id, JobState::DeadlineMissed);
    }
}

/// Dropping low-criticality jobs keeps platform, tasks and clock.
pub proof fn law_drops_keep_frame(s: Sim, n: int)
    ensures
        keeps(s, s.lo_dropped(n)),
    decreases n,
{
    if n > 0 {
        law_drops_keep_frame(s, n - 1);
        keeps_ended(s.lo_dropped(n - 1), JobId((n - 1) as u64), JobState::Dropped);
    }
}

proof fn keeps_polled(s: Sim, answers: Seq<Seq<Action>>, n: int)
    ensures
        keeps(s, s.polled(answers, n)),
    decreases n,
{
    if n > 0 {
        keeps_polled(s, answers, n - 1);
        law_actions_keep_frame(s.polled(answers, n - 1), sim::answer(answers, n), None);
    }
}

proof fn keeps_switched(s: Sim, answers: Seq<Seq<Action>>)
    ensures
        keeps(s, s.switched(answers)),
{
    let high = Sim { level: crate::task::CriticalityLevel::Hi, ..s };
    law_actions_keep_frame(high, sim::answer(answers, 0), None);
    let told = high.applied_all(sim::answer(answers, 0), None);
    law_drops_keep_frame(told, told.jobs.len() as int);
    keeps_polled(
        told.lo_dropped(told.jobs.len() as int),
        answers,
        s.devices.len() as int,
    );
}

/// A job that arrives stays known.
pub proof fn lemma_arriving_keeps_jobs(s: Sim, id: JobId)
    requires
        s.known(id),
    ensures
        s.arriving(id).known(id),
        s.arriving(id).job(id) == s.job(id),
{
}

/// Handling an event keeps platform, tasks and clock.
pub proof fn law_events_keep_frame(s: Sim, kind: EventKind, answers: Seq<Seq<Action>>)
    ensures
        same_frame(s, s.handled(kind, answers)),
        !(kind is TaskArrival || kind is JobComplete || kind is DeadlineCheck) ==> keeps(
            s,
            s.handled(kind, answers),
        ),
{
    reveal(Sim::handled);
    let first = sim::answer(answers, 0);
    match kind {
        EventKind::TaskArrival { job_id, .. } => {
            law_actions_keep_frame(s.arriving(job_id), first, None);
        },
        EventKind::JobComplete { job_id, device_id, .. } => {
            if s.device_of(job_id) == Some(device_id) {
                law_completions_add_one_record(s, job_id, device_id);
                law_actions_keep_frame(s.completing(job_id, device_id), first, None);
            }
        },
        EventKind::PreemptionPoint { device_id, .. } => {
            law_actions_keep_frame(s, first, Some(device_id));
        },
        EventKind::TransferComplete { job_id, device_id, .. } => {
            keeps_transferred(s, job_id, device_id);
        },
        EventKind::EdgeTransferComplete { edge_id, .. } => {
            keeps_edge_transferred(s, edge_id);
        },
        EventKind::BusArbitration { bus_id } => {
            keeps_arbitrated(s, bus_id);
        },
        EventKind::DeadlineCheck { job_id, .. } => {
            law_misses_add_one_record(s, job_id);
            law_actions_keep_frame(s.missing(job_id), first, None);
        },
        EventKind::BudgetOverrun { .. } => {
            keeps_switched(s, answers);
        },
        EventKind::SchedulerReevaluation { .. } => {
            law_actions_keep_frame(s, first, None);
        },
        EventKind::SimulationEnd => {},
    }
}

/// Every event that comes up brings a run closer to its end, and the clock
/// stands at its time.
pub proof fn law_runs_end(s: Sim, event: Event, answers: Seq<Seq<Action>>)
    requires
        s.events.count(event) > 0,
    ensures
        0 <= remaining_steps(s.processed_event(event, answers)) < remaining_steps(s),
        s.processed_event(event, answers).now == event.time,
{
    let taken = Sim { events: s.events.remove(event), ..s };
    let at = Sim { now: event.time, ..taken };
    let counted = Sim { processed: crate::arith::sat_add(at.processed, 1), ..at };
    law_events_keep_frame(counted, event.kind, answers);
    assert(taken.events.len() == s.events.len() - 1);
}

/// A stale event moves the clock and does nothing else.
pub proof fn law_stale_events_only_move_the_clock(
    s: Sim,
    event: Event,
    answers: Seq<Seq<Action>>,
)
    requires
        (Sim { now: event.time, ..s }).is_stale(event.kind),
    ensures
        s.attended(event, answers) == (Sim { now: event.time, ..s }),
{
}

/// What was scheduled for a job before its state changed is stale afterwards.
pub proof fn law_state_changes_void_events(job: Job, state: JobState, kind: EventKind)
    requires
        job.version < u64::MAX,
        kind.target() is Some,
        !kind.stale_at(job.version),
    ensures
        kind.stale_at(sim::moved(job, state).version),
{
}

} // verus!

//! What the actions of a scheduler do to jobs, devices and queues, said of the
//! states before and after.

use crate::arith;
use crate::arith::Rate;
use crate::device::{DeviceConfig, PreemptionModel};
use crate::device_manager;
use crate::device_manager::QueueEntry;
use crate::event::{Event, EventKind};
use crate::ids::{DeviceId, JobId};
use crate::job::{Job, JobState};
use crate::scheduler::Action;
use crate::search;
use crate::sim;
use crate::sim::Sim;
use crate::task;
use crate::task::{CriticalityLevel, DeviceType, ExecutionTimeModel, Task};
use crate::traffic;
use crate::traffic::capped;
use crate::transfer_manager::{
    JobTransferKind, ScheduledEvent, TransferId, TransferReason, TransferRequest,
};
use vstd::prelude::*;

verus! {

/// Whether there is one entry for each device, and device ids number them.
pub open spec fn is_laid_out(s: Sim) -> bool {
    &&& s.devices.len() <= u32::MAX
    &&& s.running.len() == s.devices.len()
    &&& s.queues.len() == s.devices.len()
    &&& s.busy.len() == s.devices.len()
}

/// Whether there is a job of an id.
pub open spec fn has_job(s: Sim, id: JobId) -> bool {
    id.0 < s.jobs.len() && s.jobs[id.0 as int] is Some
}

/// The job of an id.
pub open spec fn the_job(s: Sim, id: JobId) -> Job {
    s.jobs[id.0 as int]->0
}

/// The task of a job.
pub open spec fn the_task(s: Sim, id: JobId) -> Task {
    s.tasks[the_job(s, id).task_id.0 as int]
}

/// The rate at which a device executes, at least a thousandth.
pub open spec fn pace(device: DeviceConfig) -> Rate {
    if device.speed_factor.num == 0 || device.speed_factor.num * 1000 < device.speed_factor.den {
        Rate { num: 1, den: 1000 }
    } else {
        device.speed_factor
    }
}

/// Whether work takes a time on a device: the least time in which it is done.
pub open spec fn takes(work: u64, device: DeviceConfig, time: int) -> bool {
    exists|n: int| #[trigger]
        traffic::is_least_time(work, pace(device), n) && time == capped(n)
}

/// Whether a number is the most that a rate makes in a time.
pub open spec fn is_most(elapsed: int, rate: Rate, n: int) -> bool {
    &&& n >= 0
    &&& n * rate.den <= elapsed * rate.num
    &&& elapsed * rate.num < (n + 1) * rate.den
}

/// Whether work is what a device does in a time.
pub open spec fn does(elapsed: int, device: DeviceConfig, work: int) -> bool {
    if elapsed == 0 {
        work == 0
    } else if pace(device).den == 0 {
        work == u64::MAX
    } else {
        exists|n: int| #[trigger] is_most(elapsed, pace(device), n) && work == capped(n)
    }
}

/// Whether an execution time model is the first one of a type.
pub open spec fn is_first_model(
    times: Seq<(DeviceType, ExecutionTimeModel)>,
    dt: DeviceType,
    m: int,
) -> bool {
    &&& 0 <= m < times.len()
    &&& times[m].0 == dt
    &&& forall|j: int| 0 <= j < m ==> (#[trigger] times[j]).0 != dt
}

/// The time that a model gives at a criticality level.
pub open spec fn time_at(model: ExecutionTimeModel, level: CriticalityLevel) -> u64 {
    match model {
        ExecutionTimeModel::Deterministic { wcet } => wcet,
        ExecutionTimeModel::Stochastic { wcet, .. } => wcet,
        ExecutionTimeModel::MixedCriticality { wcet_lo, wcet_hi } => if level is Lo {
            wcet_lo
        } else {
            wcet_hi
        },
    }
}

/// Whether a number is the execution time of a job on a device: its own where
/// that is known, else the one that its task gives for the type of the device.
pub open spec fn is_time(s: Sim, id: JobId, d: DeviceId, time: u64) -> bool {
    match the_job(s, id).actual_exec_ns {
        Some(ns) => time == ns,
        None => exists|m: int| #[trigger]
            is_first_model(
                the_task(s, id).exec_times@,
                s.devices[d.0 as int].device_type,
                m,
            ) && time == time_at(the_task(s, id).exec_times@[m].1, s.level),
    }
}

/// Whether a job waits for a place and its execution time on a device is known.
pub open spec fn can_be_placed(s: Sim, id: JobId, d: DeviceId) -> bool {
    &&& has_job(s, id)
    &&& the_job(s, id).task_id.0 < s.tasks.len()
    &&& d.0 < s.devices.len()
    &&& the_job(s, id).state is Released || the_job(s, id).state is Ready || the_job(
        s,
        id,
    ).state is Suspended
    &&& can_run(s, id, d)
}

/// Whether the execution time of a job on a device is known.
pub open spec fn can_run(s: Sim, id: JobId, d: DeviceId) -> bool {
    the_job(s, id).actual_exec_ns is Some || exists|m: int| #[trigger]
        is_first_model(the_task(s, id).exec_times@, s.devices[d.0 as int].device_type, m)
}

/// Whether a job runs on a device.
pub open spec fn runs_on(s: Sim, id: JobId, d: DeviceId) -> bool {
    &&& has_job(s, id)
    &&& the_job(s, id).assigned_device == Some(d)
    &&& d.0 < s.devices.len()
    &&& s.running[d.0 as int] == Some(id)
}

/// Whether the data of a job lies on a device: the one that it was placed on,
/// else the first CPU.
pub open spec fn lies_at(s: Sim, id: JobId, d: DeviceId) -> bool {
    match the_job(s, id).assigned_device {
        Some(o) => d == o,
        None => {
            &&& d.0 < s.devices.len()
            &&& s.devices[d.0 as int].device_type is Cpu
            &&& forall|j: int| 0 <= j < d.0 ==> !((#[trigger] s.devices[j]).device_type is Cpu)
        },
    }
}

/// Whether the data of a job has to be moved to a device from another one.
pub open spec fn moves(s: Sim, id: JobId, from: DeviceId, to: DeviceId) -> bool {
    the_task(s, id).data_size > 0 && lies_at(s, id, from) && from != to
}

/// Whether a queue is left by the first entry of a job, if it has one.
pub open spec fn is_left(before: Seq<QueueEntry>, after: Seq<QueueEntry>, id: JobId) -> bool {
    &&& (forall|k: int| 0 <= k < before.len() ==> (#[trigger] before[k]).job_id != id) ==> after
        =~= before
    &&& forall|k: int|
        0 <= k < before.len() && (#[trigger] before[k]).job_id == id && (forall|j: int|
            0 <= j < k ==> (#[trigger] before[j]).job_id != id) ==> after =~= before.remove(k)
}

/// Whether all queues are left by a job.
pub open spec fn are_left(s: Sim, t: Sim, id: JobId) -> bool {
    &&& t.queues.len() == s.queues.len()
    &&& forall|i: int|
        0 <= i < s.queues.len() ==> is_left(#[trigger] s.queues[i], t.queues[i], id)
}

/// Whether an entry is put behind the last one of the same or a higher
/// priority.
pub open spec fn is_joined(
    before: Seq<QueueEntry>,
    after: Seq<QueueEntry>,
    entry: QueueEntry,
) -> bool {
    exists|k: int|
        0 <= k <= before.len() && after =~= #[trigger] before.insert(k, entry) && (k > 0
            ==> before[k - 1].priority <= entry.priority) && forall|j: int|
            k <= j < before.len() ==> (#[trigger] before[j]).priority > entry.priority
}

/// The entry of a job in a queue.
pub open spec fn entry_of(s: Sim, id: JobId) -> QueueEntry {
    QueueEntry { priority: the_job(s, id).effective_priority, job_id: id }
}

/// Whether only a job has changed among the jobs.
pub open spec fn changes(s: Sim, t: Sim, id: JobId, job: Job) -> bool {
    t.jobs =~= s.jobs.update(id.0 as int, Some(job))
}

/// Whether an event list is pending: none, or one with the next sequence
/// number.
pub open spec fn adds(s: Sim, t: Sim, list: Seq<ScheduledEvent>) -> bool {
    &&& list.len() <= 1
    &&& list.len() == 0 ==> t.events == s.events && t.seq == s.seq
    &&& list.len() == 1 && s.seq < u64::MAX ==> t.events == s.events.insert(
        Event { time: list[0].time, seq: s.seq, kind: list[0].kind },
    ) && t.seq == s.seq + 1
}

/// Time from a dispatch to the first preemption point of a device.
pub open spec fn interval_of(device: DeviceConfig) -> int {
    match device.preemption {
        PreemptionModel::LimitedPreemptive { granularity_ns } => granularity_ns as int,
        PreemptionModel::InterruptLevel { dma_non_preemptive_ns, .. } => {
            dma_non_preemptive_ns as int
        },
        _ => 0,
    }
}

/// Time that a device needs before any dispatch.
pub open spec fn delay_of(device: DeviceConfig) -> int {
    match device.preemption {
        PreemptionModel::NonPreemptive { reconfig_time_ns } => reconfig_time_ns as int,
        _ => 0,
    }
}

/// Time that a preemption costs the job that takes over.
pub open spec fn penalty_of(device: DeviceConfig) -> int {
    match device.preemption {
        PreemptionModel::InterruptLevel { isr_overhead_ns, .. } => isr_overhead_ns as int,
        _ => 0,
    }
}

/// The work that is left of a job with an execution time.
pub open spec fn left_of(time: u64, job: Job) -> u64 {
    if time < job.executed_ns {
        0
    } else {
        (time - job.executed_ns) as u64
    }
}

/// Whether a job starts on a device after a penalty: it runs there and waits
/// nowhere, and its completion is pending after the time that is left of its
/// work takes at the speed of the device, with its first preemption point
/// where the device has such.
pub open spec fn starts(s: Sim, t: Sim, id: JobId, d: DeviceId, penalty: int) -> bool {
    &&& takes_device(s, t, id, d, penalty)
    &&& will_complete(s, t, id, d, penalty)
    &&& are_left(s, t, id)
    &&& only_starts(s, t)
}

/// Whether nothing changes but what the start of a job does.
pub open spec fn only_starts(s: Sim, t: Sim) -> bool {
    t =~= (Sim {
        jobs: t.jobs,
        running: t.running,
        queues: t.queues,
        events: t.events,
        seq: t.seq,
        ..s
    })
}

/// Whether a job comes to run on a device after a penalty, from the end of the
/// context switch on, and its execution time is known then.
pub open spec fn takes_device(s: Sim, t: Sim, id: JobId, d: DeviceId, penalty: int) -> bool {
    let device = s.devices[d.0 as int];
    let job = the_job(t, id);
    &&& t.running =~= s.running.update(d.0 as int, Some(id))
    &&& changes(
        s,
        t,
        id,
        Job {
            state: JobState::Running,
            version: job.version,
            assigned_device: Some(d),
            exec_start_time: job.exec_start_time,
            actual_exec_ns: job.actual_exec_ns,
            ..the_job(s, id)
        },
    )
    &&& job.version == capped(the_job(s, id).version + 1)
    &&& job.exec_start_time is Some
    &&& job.exec_start_time->0 == capped(
        s.now + penalty + delay_of(device) + device.context_switch_ns,
    )
    &&& job.actual_exec_ns is Some
    &&& is_time(s, id, d, job.actual_exec_ns->0)
}

/// Whether the completion of a job that starts is pending, after what is left
/// of its work.
pub open spec fn will_complete(s: Sim, t: Sim, id: JobId, d: DeviceId, penalty: int) -> bool {
    let device = s.devices[d.0 as int];
    let job = the_job(t, id);
    let begin = s.now + penalty + delay_of(device);
    exists|wall: int| #[trigger]
        takes(left_of(job.actual_exec_ns->0, the_job(s, id)), device, wall) && announces(
            s,
            t,
            id,
            d,
            job.version,
            capped(begin + device.context_switch_ns + wall),
            capped(begin + interval_of(device)),
        )
}

/// Whether the completion of a job, and its first preemption point where the
/// device has such, are pending at times.
pub open spec fn announces(
    s: Sim,
    t: Sim,
    id: JobId,
    d: DeviceId,
    version: u64,
    completion: int,
    point: int,
) -> bool {
    let done = Event {
        time: completion as u64,
        seq: s.seq,
        kind: EventKind::JobComplete { job_id: id, expected_version: version, device_id: d },
    };
    let next = Event {
        time: point as u64,
        seq: (s.seq + 1) as u64,
        kind: EventKind::PreemptionPoint { device_id: d, job_id: id, expected_version: version },
    };
    s.seq < u64::MAX - 1 ==> if interval_of(s.devices[d.0 as int]) > 0 {
        t.events == s.events.insert(done).insert(next) && t.seq == s.seq + 2
    } else {
        t.events == s.events.insert(done) && t.seq == s.seq + 1
    }
}

/// Whether a job comes to wait at a device, and nowhere else.
pub open spec fn waits(s: Sim, t: Sim, id: JobId, d: DeviceId) -> bool {
    let job = the_job(t, id);
    &&& changes(
        s,
        t,
        id,
        Job {
            state: if the_job(s, id).state is Suspended {
                JobState::Suspended
            } else {
                JobState::Ready
            },
            version: job.version,
            ..the_job(s, id)
        },
    )
    &&& job.version == capped(the_job(s, id).version + 1)
    &&& t.queues.len() == s.queues.len()
    &&& forall|i: int|
        0 <= i < s.queues.len() && i != d.0 ==> is_left(#[trigger] s.queues[i], t.queues[i], id)
    &&& exists|q: Seq<QueueEntry>| #[trigger]
        is_left(s.queues[d.0 as int], q, id) && is_joined(
            q,
            t.queues[d.0 as int],
            entry_of(s, id),
        )
    &&& t == (Sim { jobs: t.jobs, queues: t.queues, ..s })
}

/// Whether the data of a job is sent from a device to another one, which the
/// job is assigned to.
pub open spec fn sends(
    s: Sim,
    t: Sim,
    id: JobId,
    from: DeviceId,
    to: DeviceId,
    kind: JobTransferKind,
    state: JobState,
) -> bool {
    let job = the_job(t, id);
    let request = TransferRequest {
        id: TransferId::Job(id),
        owner_job_id: id,
        from,
        to,
        data_size: the_task(s, id).data_size,
        reason: TransferReason::Job(kind),
        priority: the_job(s, id).effective_priority,
        expected_version: job.version,
    };
    &&& changes(
        s,
        t,
        id,
        Job { state, version: job.version, assigned_device: Some(to), ..the_job(s, id) },
    )
    &&& job.version == capped(the_job(s, id).version + 1)
    &&& are_left(s, t, id)
    &&& t.transfers == s.transfers.requested(s.links, request, s.now).0
    &&& adds(s, t, s.transfers.requested(s.links, request, s.now).1)
    &&& t == (Sim {
        jobs: t.jobs,
        queues: t.queues,
        transfers: t.transfers,
        events: t.events,
        seq: t.seq,
        ..s
    })
}

/// How long a job has executed since it started on its device.
pub open spec fn ran(s: Sim, id: JobId) -> int {
    match the_job(s, id).exec_start_time {
        Some(start) => if s.now < start {
            0
        } else {
            s.now - start
        },
        None => 0,
    }
}

/// Whether a job that leaves its device has executed what the device did since
/// the job started, and the device is idle and was busy for that time.
pub open spec fn stops(s: Sim, t: Sim, id: JobId, d: DeviceId) -> bool {
    &&& t.running =~= s.running.update(d.0 as int, None)
    &&& t.busy =~= s.busy.update(d.0 as int, capped(s.busy[d.0 as int] + ran(s, id)) as u64)
    &&& exists|work: int| #[trigger]
        does(ran(s, id), s.devices[d.0 as int], work) && the_job(t, id).executed_ns == capped(
            the_job(s, id).executed_ns + work,
        )
    &&& the_job(t, id).exec_start_time is None
}

/// Whether a running job is put back into the queue of its device.
pub open spec fn is_suspended(s: Sim, t: Sim, id: JobId, d: DeviceId) -> bool {
    let job = the_job(t, id);
    &&& stops(s, t, id, d)
    &&& changes(
        s,
        t,
        id,
        Job {
            state: JobState::Suspended,
            version: job.version,
            executed_ns: job.executed_ns,
            exec_start_time: None,
            ..the_job(s, id)
        },
    )
    &&& job.version == capped(the_job(s, id).version + 1)
    &&& t.queues.len() == s.queues.len()
    &&& forall|i: int| 0 <= i < s.queues.len() && i != d.0 ==> #[trigger] t.queues[i] == s.queues[i]
    &&& is_joined(s.queues[d.0 as int], t.queues[d.0 as int], entry_of(s, id))
    &&& t.preemptions == capped(s.preemptions + 1)
    &&& t == (Sim {
        jobs: t.jobs,
        running: t.running,
        busy: t.busy,
        queues: t.queues,
        preemptions: t.preemptions,
        ..s
    })
}

/// Whether a device lets a running job be preempted now: always where it is
/// fully preemptive; at its preemption points, and always where no time lies
/// between them; never where it is not preemptive.
pub open spec fn grants(s: Sim, d: DeviceId, at: Option<DeviceId>) -> bool {
    match s.devices[d.0 as int].preemption {
        PreemptionModel::FullyPreemptive => true,
        PreemptionModel::LimitedPreemptive { granularity_ns } => at == Some(d) || granularity_ns
            == 0,
        PreemptionModel::InterruptLevel { dma_non_preemptive_ns, .. } => at == Some(d)
            || dma_non_preemptive_ns == 0,
        PreemptionModel::NonPreemptive { .. } => false,
    }
}

proof fn lemma_takes(work: u64, device: DeviceConfig)
    ensures
        takes(work, device, arith::time_at_rate(work, sim::speed_of(device)) as int),
{
    let rate = pace(device);
    assert(rate == sim::speed_of(device));
    let n = work * rate.den;
    let num = rate.num as int;
    assert(n >= 0) by (nonlinear_arith)
        requires
            n == work * rate.den,
    ;
    let t = arith::ceil_div(n, num);
    assert(t >= 0 && t * num >= n && (t - 1) * num < n) by (nonlinear_arith)
        requires
            n >= 0,
            num > 0,
            t == (n + num - 1) / num,
    ;
    assert(traffic::is_least_time(work, rate, t));
}

proof fn lemma_does(elapsed: u64, device: DeviceConfig)
    ensures
        does(elapsed as int, device, arith::done_at_rate(elapsed, sim::speed_of(device)) as int),
{
    let rate = pace(device);
    assert(rate == sim::speed_of(device));
    if elapsed != 0 && rate.den != 0 {
        let n = elapsed * rate.num;
        let den = rate.den as int;
        assert(n >= 0) by (nonlinear_arith)
            requires
                n == elapsed * rate.num,
        ;
        let q = n / den;
        assert(q >= 0 && q * den <= n && n < (q + 1) * den) by (nonlinear_arith)
            requires
                n >= 0,
                den > 0,
                q == n / den,
        ;
        assert(is_most(elapsed as int, rate, q));
    }
}

proof fn lemma_model(times: Seq<(DeviceType, ExecutionTimeModel)>, dt: DeviceType)
    ensures
        match task::model_index(times, dt) {
            Some(m) => is_first_model(times, dt, m),
            None => forall|m: int| !#[trigger] is_first_model(times, dt, m),
        },
    decreases times.len(),
{
    if times.len() > 0 {
        let rest = times.drop_last();
        let n = times.len() - 1;
        lemma_model(rest, dt);
        assert forall|j: int| 0 <= j < rest.len() implies rest[j] == #[trigger] times[j] by {}
        match task::model_index(rest, dt) {
            Some(m) => {
                assert(rest[m] == times[m]);
                assert forall|j: int| 0 <= j < m implies (#[trigger] times[j]).0 != dt by {
                    assert(rest[j].0 != dt);
                }
            },
            None => {
                lemma_no_model(rest, dt);
                if times[n].0 != dt {
                    assert forall|m: int| !#[trigger] is_first_model(times, dt, m) by {
                        if is_first_model(times, dt, m) {
                            assert(times[m].0 == dt);
                            assert(rest[m].0 != dt);
                        }
                    }
                } else {
                    assert forall|j: int| 0 <= j < n implies (#[trigger] times[j]).0 != dt by {
                        assert(rest[j].0 != dt);
                    }
                }
            },
        }
    }
}

proof fn lemma_no_model(times: Seq<(DeviceType, ExecutionTimeModel)>, dt: DeviceType)
    requires
        task::model_index(times, dt) is None,
    ensures
        forall|j: int| 0 <= j < times.len() ==> (#[trigger] times[j]).0 != dt,
    decreases times.len(),
{
    if times.len() > 0 {
        let rest = times.drop_last();
        lemma_no_model(rest, dt);
        assert forall|j: int| 0 <= j < times.len() implies (#[trigger] times[j]).0 != dt by {
            if j < rest.len() {
                assert(rest[j].0 != dt);
            }
        }
    }
}

pub(crate) proof fn lemma_can_run(s: Sim, id: JobId, d: DeviceId)
    requires
        has_job(s, id),
    ensures
        s.executable(id, d) == can_run(s, id, d),
        can_run(s, id, d) ==> is_time(s, id, d, s.exec_time(id, d)),
{
    let times = the_task(s, id).exec_times@;
    let dt = s.devices[d.0 as int].device_type;
    lemma_model(times, dt);
    if task::model_index(times, dt) is Some {
        assert(is_first_model(times, dt, task::model_index(times, dt)->0));
    }
}

proof fn lemma_can_be_placed(s: Sim, id: JobId, d: DeviceId)
    ensures
        s.placeable(id, d) == can_be_placed(s, id, d),
{
    if has_job(s, id) {
        lemma_can_run(s, id, d);
    }
}

pub(crate) proof fn lemma_runs_on(s: Sim, id: JobId, d: DeviceId)
    ensures
        (s.device_of(id) == Some(d)) == runs_on(s, id, d),
{
}

proof fn lemma_moves(s: Sim, id: JobId, d: DeviceId)
    requires
        is_laid_out(s),
        has_job(s, id),
    ensures
        s.needs_transfer(id, d) ==> moves(s, id, s.origin(id)->0, d),
        !s.needs_transfer(id, d) ==> forall|o: DeviceId| !#[trigger] moves(s, id, o, d),
        forall|o: DeviceId| #[trigger] lies_at(s, id, o) ==> s.origin(id) == Some(o),
{
    let cond = sim::is_cpu();
    search::law_first_where(s.devices, cond);
    assert forall|j: int| 0 <= j < s.devices.len() implies cond(s.devices[j]) == ((
    #[trigger] s.devices[j]).device_type is Cpu) by {}
    assert forall|o: DeviceId| #[trigger] lies_at(s, id, o) implies s.origin(id) == Some(o) by {
        if the_job(s, id).assigned_device is None {
            let i = search::first_where(s.devices, cond);
            assert(cond(s.devices[o.0 as int]));
            assert(s.devices[i->0].device_type is Cpu);
            assert(DeviceId(i->0 as u32) == o);
        }
    }
    if the_job(s, id).assigned_device is None {
        if let Some(i) = search::first_where(s.devices, cond) {
            assert(lies_at(s, id, DeviceId(i as u32))) by {
                assert forall|j: int| 0 <= j < i implies !((
                #[trigger] s.devices[j]).device_type is Cpu) by {
                    assert(!cond(s.devices[j]));
                }
            }
        }
    } else {
        assert(lies_at(s, id, the_job(s, id).assigned_device->0));
    }
    assert forall|o: DeviceId| !s.needs_transfer(id, d) implies !#[trigger] moves(s, id, o, d) by {
        if moves(s, id, o, d) {
            assert(lies_at(s, id, o));
        }
    }
}

proof fn lemma_left(queue: Seq<QueueEntry>, id: JobId)
    ensures
        is_left(queue, device_manager::without(queue, id), id),
{
    device_manager::lemma_place_of(queue, id);
    assert forall|k: int|
        0 <= k < queue.len() && (#[trigger] queue[k]).job_id == id && (forall|j: int|
            0 <= j < k ==> (#[trigger] queue[j]).job_id != id) implies device_manager::without(
        queue,
        id,
    ) =~= queue.remove(k) by {
        let i = device_manager::place_of(queue, id);
        assert(queue[i->0].job_id == id);
    }
    if forall|k: int| 0 <= k < queue.len() ==> (#[trigger] queue[k]).job_id != id {
        if let Some(i) = device_manager::place_of(queue, id) {
            assert(queue[i].job_id == id);
        }
    }
}

proof fn lemma_joined(queue: Seq<QueueEntry>, entry: QueueEntry)
    ensures
        is_joined(queue, device_manager::enqueued(queue, entry), entry),
{
    lemma_slot(queue, entry.priority);
    let k = device_manager::slot(queue, entry.priority);
    assert(device_manager::enqueued(queue, entry) =~= queue.insert(k, entry));
}

proof fn lemma_slot(queue: Seq<QueueEntry>, priority: u32)
    ensures
        ({
            let k = device_manager::slot(queue, priority);
            &&& 0 <= k <= queue.len()
            &&& k > 0 ==> queue[k - 1].priority <= priority
            &&& forall|j: int| k <= j < queue.len() ==> (#[trigger] queue[j]).priority > priority
        }),
    decreases queue.len(),
{
    if queue.len() > 0 && queue.last().priority > priority {
        let rest = queue.drop_last();
        lemma_slot(rest, priority);
        let k = device_manager::slot(queue, priority);
        assert forall|j: int| k <= j < queue.len() implies (#[trigger] queue[j]).priority
            > priority by {
            if j < rest.len() {
                assert(rest[j].priority > priority);
            }
        }
    }
}

proof fn lemma_takes_device(s: Sim, id: JobId, d: DeviceId, penalty: u64)
    requires
        has_job(s, id),
        d.0 < s.devices.len(),
        can_run(s, id, d),
    ensures
        takes_device(s, s.started(id, d, penalty), id, d, penalty as int),
        only_starts(s, s.started(id, d, penalty)),
        the_job(s.started(id, d, penalty), id).actual_exec_ns == Some(s.exec_time(id, d)),
{
    lemma_can_run(s, id, d);
}

proof fn lemma_will_complete(s: Sim, id: JobId, d: DeviceId, penalty: u64)
    requires
        has_job(s, id),
        d.0 < s.devices.len(),
        can_run(s, id, d),
    ensures
        will_complete(s, s.started(id, d, penalty), id, d, penalty as int),
{
    let t = s.started(id, d, penalty);
    let device = s.devices[d.0 as int];
    let old_job = the_job(s, id);
    let exec = s.exec_time(id, d);
    lemma_takes_device(s, id, d, penalty);
    let left = arith::sat_sub(exec, old_job.executed_ns);
    lemma_takes(left, device);
    let wall = arith::time_at_rate(left, sim::speed_of(device)) as int;
    assert(left == left_of(exec, old_job));
    assert(takes(left_of(exec, old_job), device, wall));
    let begin = s.now + penalty + delay_of(device);
    assert(announces(
        s,
        t,
        id,
        d,
        the_job(t, id).version,
        capped(begin + device.context_switch_ns + wall),
        capped(begin + interval_of(device)),
    ));
}

pub(crate) proof fn lemma_starts(s: Sim, id: JobId, d: DeviceId, penalty: u64)
    requires
        has_job(s, id),
        d.0 < s.devices.len(),
        can_run(s, id, d),
    ensures
        starts(s, s.started(id, d, penalty), id, d, penalty as int),
{
    let t = s.started(id, d, penalty);
    lemma_takes_device(s, id, d, penalty);
    lemma_will_complete(s, id, d, penalty);
    assert forall|i: int| 0 <= i < s.queues.len() implies is_left(
        #[trigger] s.queues[i],
        t.queues[i],
        id,
    ) by {
        lemma_left(s.queues[i], id);
    }
    assert(are_left(s, t, id));
}

pub(crate) proof fn lemma_waits(s: Sim, id: JobId, d: DeviceId)
    requires
        has_job(s, id),
        d.0 < s.queues.len(),
    ensures
        waits(s, s.enqueued(id, d), id, d),
{
    let t = s.enqueued(id, d);
    assert forall|i: int| 0 <= i < s.queues.len() && i != d.0 implies is_left(
        #[trigger] s.queues[i],
        t.queues[i],
        id,
    ) by {
        lemma_left(s.queues[i], id);
    }
    let q = device_manager::without(s.queues[d.0 as int], id);
    lemma_left(s.queues[d.0 as int], id);
    lemma_joined(q, entry_of(s, id));
    assert(is_left(s.queues[d.0 as int], q, id));
}

proof fn lemma_sends(
    s: Sim,
    id: JobId,
    from: DeviceId,
    to: DeviceId,
    kind: JobTransferKind,
    state: JobState,
)
    requires
        has_job(s, id),
    ensures
        sends(s, s.sent(id, from, to, kind, state), id, from, to, kind, state),
{
    let t = s.sent(id, from, to, kind, state);
    let leaving = Job { assigned_device: Some(to), ..sim::moved(s.job(id)->0, state) };
    let request = TransferRequest {
        id: TransferId::Job(id),
        owner_job_id: id,
        from,
        to,
        data_size: s.task_of(id).data_size,
        reason: TransferReason::Job(kind),
        priority: leaving.effective_priority,
        expected_version: leaving.version,
    };
    let (transfers, list) = s.transfers.requested(s.links, request, s.now);
    let mid = Sim { transfers, ..s.unqueued(id).with_job(id, leaving) };
    lemma_adds(mid, list);
    sim::lemma_scheduled_all(mid, list);
    assert forall|i: int| 0 <= i < s.queues.len() implies is_left(
        #[trigger] s.queues[i],
        t.queues[i],
        id,
    ) by {
        lemma_left(s.queues[i], id);
    }
}

pub(crate) proof fn lemma_adds(s: Sim, list: Seq<ScheduledEvent>)
    requires
        list.len() <= 1,
    ensures
        adds(s, s.scheduled_all(list), list),
{
    if list.len() == 1 {
        assert(list.drop_last().len() == 0);
        assert(s.scheduled_all(list.drop_last()) == s);
    }
}

pub(crate) proof fn lemma_stops(s: Sim, id: JobId, d: DeviceId)
    requires
        is_laid_out(s),
        has_job(s, id),
        d.0 < s.devices.len(),
    ensures
        stops(s, s.paused(id, d), id, d),
{
    let elapsed = match the_job(s, id).exec_start_time {
        Some(start) => arith::sat_sub(s.now, start),
        None => 0,
    };
    assert(elapsed == ran(s, id));
    lemma_does(elapsed, s.devices[d.0 as int]);
}

proof fn lemma_suspended(s: Sim, id: JobId, d: DeviceId)
    requires
        is_laid_out(s),
        has_job(s, id),
        d.0 < s.devices.len(),
    ensures
        is_suspended(s, s.suspended(id, d), id, d),
        is_laid_out(s.suspended(id, d)),
{
    lemma_stops(s, id, d);
    lemma_joined(s.queues[d.0 as int], entry_of(s, id));
}

/// A job that is dispatched has its data sent to the device first, where that
/// lies elsewhere. Otherwise it starts where the device is idle, and waits
/// there where it is busy. One that cannot be placed is left alone.
pub proof fn law_dispatch(s: Sim, id: JobId, d: DeviceId, at: Option<DeviceId>)
    requires
        is_laid_out(s),
    ensures
        ({
            let t = s.applied(Action::Dispatch { job_id: id, device_id: d }, at);
            &&& !can_be_placed(s, id, d) ==> t == s
            &&& forall|o: DeviceId| #[trigger]
                moves(s, id, o, d) && can_be_placed(s, id, d) ==> sends(
                    s,
                    t,
                    id,
                    o,
                    d,
                    JobTransferKind::Dispatch,
                    JobState::Transferring,
                )
            &&& can_be_placed(s, id, d) && (forall|o: DeviceId| !#[trigger] moves(s, id, o, d))
                && s.running[d.0 as int] is None ==> starts(s, t, id, d, 0)
            &&& can_be_placed(s, id, d) && (forall|o: DeviceId| !#[trigger] moves(s, id, o, d))
                && s.running[d.0 as int] is Some ==> waits(s, t, id, d)
        }),
{
    reveal(Sim::applied);
    lemma_can_be_placed(s, id, d);
    if can_be_placed(s, id, d) {
        lemma_moves(s, id, d);
        if s.needs_transfer(id, d) {
            let o = s.origin(id)->0;
            assert(moves(s, id, o, d));
            lemma_sends(s, id, o, d, JobTransferKind::Dispatch, JobState::Transferring);
            assert forall|p: DeviceId| #[trigger] moves(s, id, p, d) implies p == o by {
                assert(lies_at(s, id, p));
            }
        } else if s.running[d.0 as int] is None {
            lemma_starts(s, id, d, 0);
        } else {
            lemma_waits(s, id, d);
        }
    }
}

/// A job that is to wait is put into the queue of the device; one that cannot
/// be placed is left alone.
pub proof fn law_enqueue(s: Sim, id: JobId, d: DeviceId, at: Option<DeviceId>)
    requires
        is_laid_out(s),
    ensures
        ({
            let t = s.applied(Action::Enqueue { job_id: id, device_id: d }, at);
            &&& !can_be_placed(s, id, d) ==> t == s
            &&& can_be_placed(s, id, d) ==> waits(s, t, id, d)
        }),
{
    reveal(Sim::applied);
    lemma_can_be_placed(s, id, d);
    if can_be_placed(s, id, d) {
        lemma_waits(s, id, d);
    }
}

/// Doing nothing changes nothing.
pub proof fn law_no_op(s: Sim, at: Option<DeviceId>)
    ensures
        s.applied(Action::NoOp, at) == s,
{
    reveal(Sim::applied);
}

/// A preemption takes place where the victim runs on the device and the other
/// job can be placed there. Where the data of that job lies elsewhere, it is
/// sent first. Else, where the device grants the preemption now, the victim is
/// put back into the queue of the device and the other job starts after the
/// penalty; otherwise that job waits.
pub proof fn law_preempt(
    s: Sim,
    victim: JobId,
    by: JobId,
    d: DeviceId,
    at: Option<DeviceId>,
) -> (mid: Sim)
    requires
        is_laid_out(s),
        victim != by,
    ensures
        ({
            let t = s.applied(Action::Preempt { victim, by, device_id: d }, at);
            let fits = can_be_placed(s, by, d) && runs_on(s, victim, d);
            &&& !fits ==> t == s
            &&& forall|o: DeviceId| #[trigger]
                moves(s, by, o, d) && fits ==> sends(
                    s,
                    t,
                    by,
                    o,
                    d,
                    JobTransferKind::Dispatch,
                    JobState::Transferring,
                )
            &&& fits && (forall|o: DeviceId| !#[trigger] moves(s, by, o, d)) && grants(s, d, at)
                ==> is_suspended(s, mid, victim, d) && starts(
                mid,
                t,
                by,
                d,
                penalty_of(s.devices[d.0 as int]),
            )
            &&& fits && (forall|o: DeviceId| !#[trigger] moves(s, by, o, d)) && !grants(s, d, at)
                ==> waits(s, t, by, d)
        }),
{
    reveal(Sim::applied);
    lemma_can_be_placed(s, by, d);
    lemma_runs_on(s, victim, d);
    let mid = s.suspended(victim, d);
    if can_be_placed(s, by, d) && runs_on(s, victim, d) {
        lemma_moves(s, by, d);
        if s.needs_transfer(by, d) {
            let o = s.origin(by)->0;
            assert(moves(s, by, o, d));
            lemma_sends(s, by, o, d, JobTransferKind::Dispatch, JobState::Transferring);
            assert forall|p: DeviceId| #[trigger] moves(s, by, p, d) implies p == o by {
                assert(lies_at(s, by, p));
            }
        } else if grants(s, d, at) {
            lemma_suspended(s, victim, d);
            assert(the_job(mid, by) == the_job(s, by));
            assert(can_run(mid, by, d)) by {
                if the_job(s, by).actual_exec_ns is None {
                    let m = choose|m: int| #[trigger]
                        is_first_model(
                            the_task(s, by).exec_times@,
                            s.devices[d.0 as int].device_type,
                            m,
                        );
                    assert(is_first_model(
                        the_task(mid, by).exec_times@,
                        mid.devices[d.0 as int].device_type,
                        m,
                    ));
                }
            }
            lemma_starts(mid, by, d, penalty_of(s.devices[d.0 as int]) as u64);
        } else {
            lemma_waits(s, by, d);
        }
    }
    mid
}

/// Whether a queue holds a job.
pub open spec fn holds(queue: Seq<QueueEntry>, id: JobId) -> bool {
    exists|k: int| 0 <= k < queue.len() && (#[trigger] queue[k]).job_id == id
}

/// A job migrates where it runs on the one device or waits in its queue, and
/// can run on the other: it leaves the one, with its progress recorded, its
/// data is sent to the other, and the migration is counted. Otherwise nothing
/// happens.
pub proof fn law_migrate(
    s: Sim,
    id: JobId,
    from: DeviceId,
    to: DeviceId,
    at: Option<DeviceId>,
) -> (mid: Sim)
    requires
        is_laid_out(s),
    ensures
        ({
            let t = s.applied(Action::Migrate { job_id: id, from, to }, at);
            let fits = has_job(s, id) && the_job(s, id).task_id.0 < s.tasks.len() && from.0
                < s.devices.len() && to.0 < s.devices.len() && from != to && can_run(s, id, to);
            &&& !fits ==> t == s
            &&& fits && !runs_on(s, id, from) && !holds(s.queues[from.0 as int], id) ==> t == s
            &&& fits && runs_on(s, id, from) ==> stops(s, mid, id, from) && mid.jobs
                =~= s.jobs.update(
                id.0 as int,
                Some(
                    Job {
                        executed_ns: the_job(mid, id).executed_ns,
                        exec_start_time: None,
                        ..the_job(s, id)
                    },
                ),
            ) && mid == (Sim { jobs: mid.jobs, running: mid.running, busy: mid.busy, ..s })
            &&& fits && !runs_on(s, id, from) ==> mid == s
            &&& fits && (runs_on(s, id, from) || holds(s.queues[from.0 as int], id)) ==> sends(
                mid,
                (Sim { migrations: s.migrations, ..t }),
                id,
                from,
                to,
                JobTransferKind::Migration,
                JobState::Migrating,
            ) && t.migrations == capped(s.migrations + 1)
        }),
{
    reveal(Sim::applied);
    let t = s.applied(Action::Migrate { job_id: id, from, to }, at);
    lemma_runs_on(s, id, from);
    let mid = if runs_on(s, id, from) {
        s.paused(id, from)
    } else {
        s
    };
    if has_job(s, id) && the_job(s, id).task_id.0 < s.tasks.len() && from.0 < s.devices.len()
        && to.0 < s.devices.len() && from != to {
        lemma_can_run(s, id, to);
        device_manager::lemma_place_of(s.queues[from.0 as int], id);
        if let Some(k) = device_manager::place_of(s.queues[from.0 as int], id) {
            assert(s.queues[from.0 as int][k].job_id == id);
        }
        if runs_on(s, id, from) {
            lemma_stops(s, id, from);
        }
        lemma_sends(mid, id, from, to, JobTransferKind::Migration, JobState::Migrating);
        let sent = mid.sent(id, from, to, JobTransferKind::Migration, JobState::Migrating);
        if can_run(s, id, to) && (runs_on(s, id, from) || holds(s.queues[from.0 as int], id)) {
            assert(sent == (Sim { migrations: s.migrations, ..t }));
        }
    }
    mid
}

/// Whether a job comes to an end in a state: it runs nowhere, with its progress
/// recorded where it ran, waits nowhere, and its transfers are cancelled.
pub open spec fn finishes(s: Sim, t: Sim, id: JobId, state: JobState) -> bool {
    let job = the_job(t, id);
    &&& changes(
        s,
        t,
        id,
        Job {
            state,
            version: job.version,
            executed_ns: job.executed_ns,
            exec_start_time: job.exec_start_time,
            ..the_job(s, id)
        },
    )
    &&& job.version == capped(the_job(s, id).version + 1)
    &&& are_left(s, t, id)
    &&& forall|d: DeviceId| #[trigger] runs_on(s, id, d) ==> stops(s, t, id, d)
    &&& (forall|d: DeviceId| !#[trigger] runs_on(s, id, d)) ==> {
        &&& t.running == s.running
        &&& t.busy == s.busy
        &&& job.executed_ns == the_job(s, id).executed_ns
        &&& job.exec_start_time == the_job(s, id).exec_start_time
    }
    &&& t.transfers == s.transfers.cancelled(s.links, s.buses, id, s.now).0
    &&& adds(s, t, s.transfers.cancelled(s.links, s.buses, id, s.now).1)
    &&& t == (Sim {
        jobs: t.jobs,
        running: t.running,
        busy: t.busy,
        queues: t.queues,
        transfers: t.transfers,
        events: t.events,
        seq: t.seq,
        ..s
    })
}

pub(crate) proof fn lemma_finishes(s: Sim, id: JobId, state: JobState)
    requires
        is_laid_out(s),
        has_job(s, id),
    ensures
        finishes(s, s.ended(id, state), id, state),
{
    let t = s.ended(id, state);
    let stopped = match s.device_of(id) {
        Some(d) => s.paused(id, d),
        None => s,
    };
    assert forall|d: DeviceId| #[trigger] runs_on(s, id, d) == (s.device_of(id) == Some(d)) by {
        lemma_runs_on(s, id, d);
    }
    if let Some(d) = s.device_of(id) {
        assert(runs_on(s, id, d));
        lemma_stops(s, id, d);
    }
    let (transfers, list) = stopped.transfers.cancelled(s.links, s.buses, id, s.now);
    let mid = Sim {
        transfers,
        ..stopped.unqueued(id).with_job(id, sim::moved(stopped.job(id)->0, state))
    };
    lemma_adds(mid, list);
    sim::lemma_scheduled_all(mid, list);
    assert forall|i: int| 0 <= i < s.queues.len() implies is_left(
        #[trigger] s.queues[i],
        t.queues[i],
        id,
    ) by {
        lemma_left(s.queues[i], id);
    }
}

/// A job that is dropped comes to an end, unless it has come to one.
pub proof fn law_drop(s: Sim, id: JobId, at: Option<DeviceId>)
    requires
        is_laid_out(s),
    ensures
        ({
            let t = s.applied(Action::DropJob { job_id: id }, at);
            let state = the_job(s, id).state;
            let open = has_job(s, id) && !(state is Completed || state is Dropped || state
                is DeadlineMissed);
            &&& !open ==> t == s
            &&& open ==> finishes(s, t, id, JobState::Dropped)
        }),
{
    reveal(Sim::applied);
    if has_job(s, id) {
        lemma_finishes(s, id, JobState::Dropped);
    }
}

/// Actions take effect one after the other, in their order.
pub proof fn law_actions_take_effect_in_turn(
    s: Sim,
    actions: Seq<Action>,
    next: Action,
    at: Option<DeviceId>,
)
    ensures
        s.applied_all(Seq::empty(), at) == s,
        s.applied_all(actions.push(next), at) == s.applied_all(actions, at).applied(next, at),
{
    assert(actions.push(next).drop_last() =~= actions);
}

} // verus!

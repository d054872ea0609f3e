//! Soundness of the simulation state, and that every step keeps it whatever
//! the scheduler answers.
//!
//! Running jobs and occupied devices belong together one to one, a job waits in
//! exactly one queue while it is ready or suspended, transfers are sound, and
//! no pending event is in the past.

use crate::arith;
use crate::dag::{DagInstanceId, DagProvenance, EdgeTransferId, SubTaskIdx};
use crate::device_manager;
use crate::device_manager::QueueEntry;
use crate::event::{Event, EventKind};
use crate::ids::{BusId, DeviceId, JobId, TaskId};
use crate::job::{Job, JobState};
use crate::scheduler::{Action, ReevaluationPolicy};
use crate::sim;
use crate::sim::Sim;
use crate::task::Task;
use crate::time::Nanos;
use crate::transfer_manager;
use crate::transfer_manager::{JobTransferKind, ScheduledEvent};
use vstd::prelude::*;

verus! {

/// Whether a queue holds a job.
pub open spec fn holds(queue: Seq<QueueEntry>, id: JobId) -> bool {
    device_manager::place_of(queue, id) is Some
}

/// Whether no job is in a queue twice.
pub open spec fn distinct(queue: Seq<QueueEntry>) -> bool {
    forall|i: int, j: int|
        0 <= i < j < queue.len() ==> (#[trigger] queue[i]).job_id != (#[trigger] queue[j]).job_id
}

/// Whether a job is one that waits in a queue.
pub open spec fn is_queued(job: Job) -> bool {
    job.state is Ready || job.state is Suspended
}

/// Whether jobs are where their states say, but for one that may be on its
/// way: that one occupies no device and waits in no queue.
pub open spec fn placed_but(s: Sim, free: Option<JobId>) -> bool {
    &&& s.devices.len() <= u32::MAX
    &&& s.running.len() == s.devices.len()
    &&& s.queues.len() == s.devices.len()
    &&& s.busy.len() == s.devices.len()
    &&& forall|i: int|
        0 <= i < s.jobs.len() ==> ((#[trigger] s.jobs[i]) matches Some(job) && job.id == JobId(
            i as u64,
        ))
    &&& forall|d: int|
        0 <= d < s.devices.len() ==> ((#[trigger] s.running[d]) matches Some(id) ==> (s.job(
            id,
        ) matches Some(job) && job.state is Running && job.assigned_device == Some(
            DeviceId(d as u32),
        )))
    &&& forall|id: JobId|
        (#[trigger] s.job(id)) matches Some(job) ==> (job.state is Running && free != Some(id)
            ==> s.device_of(id) is Some)
    &&& forall|d: int|
        0 <= d < s.devices.len() ==> distinct(#[trigger] s.queues[d])
            && device_manager::by_priority(s.queues[d])
    &&& forall|d: int, id: JobId|
        0 <= d < s.devices.len() && #[trigger] holds(s.queues[d], id) ==> (s.job(id) matches Some(
            job,
        ) && is_queued(job))
    &&& forall|d: int, e: int, id: JobId|
        0 <= d < e < s.devices.len() ==> !(#[trigger] holds(s.queues[d], id) && #[trigger] holds(
            s.queues[e],
            id,
        ))
    &&& forall|id: JobId|
        (#[trigger] s.job(id)) matches Some(job) ==> (is_queued(job) && free != Some(id)
            ==> exists|d: int| 0 <= d < s.devices.len() && #[trigger] holds(s.queues[d], id))
    &&& free matches Some(f) ==> {
        &&& s.job(f) is Some
        &&& forall|d: int| 0 <= d < s.devices.len() ==> #[trigger] s.running[d] != Some(f)
        &&& forall|d: int| 0 <= d < s.devices.len() ==> !holds(#[trigger] s.queues[d], f)
    }
}

/// Whether no pending event is in the past, and no two have the same number.
pub open spec fn timely(s: Sim) -> bool {
    &&& forall|e: Event| #[trigger]
        s.events.count(e) > 0 ==> e.time >= s.now && e.seq < s.seq && s.events.count(e) == 1
    &&& forall|a: Event, b: Event|
        #[trigger] s.events.count(a) > 0 && #[trigger] s.events.count(b) > 0 && a.seq == b.seq
            ==> a == b
}

/// Whether a state is sound.
pub open spec fn sound(s: Sim) -> bool {
    &&& placed_but(s, None)
    &&& timely(s)
    &&& s.transfers.sound(s.links)
}

/// Whether a job keeps its identity, and its version never falls. A job that
/// has come to an end does not change any more.
pub open spec fn outlives(a: Job, b: Job) -> bool {
    &&& device_manager::same_face(a, b)
    &&& a.dag_provenance == b.dag_provenance
    &&& a.version <= b.version
    &&& a.state.terminal() ==> a == b
}

/// Whether every job of a state lives on in another one.
pub open spec fn lives_on(s: Sim, t: Sim) -> bool {
    &&& s.jobs.len() <= t.jobs.len()
    &&& forall|i: int|
        0 <= i < s.jobs.len() ==> ((#[trigger] s.jobs[i]) matches Some(a) ==> (
        t.jobs[i] matches Some(b) && outlives(a, b)))
}

proof fn lemma_lives_on(s: Sim, t: Sim, u: Sim)
    requires
        lives_on(s, t),
        lives_on(t, u),
    ensures
        lives_on(s, u),
{
    assert forall|i: int| 0 <= i < s.jobs.len() implies ((#[trigger] s.jobs[i]) matches Some(a) ==> (
    u.jobs[i] matches Some(b) && outlives(a, b))) by {
        if s.jobs[i] is Some {
            assert(t.jobs[i] is Some);
        }
    }
}

proof fn lemma_removed_holds(queue: Seq<QueueEntry>, i: int, x: JobId)
    requires
        distinct(queue),
        0 <= i < queue.len(),
    ensures
        holds(queue.remove(i), x) <==> holds(queue, x) && x != queue[i].job_id,
{
    let left = queue.remove(i);
    device_manager::lemma_place_of(queue, x);
    device_manager::lemma_place_of(left, x);
    if holds(left, x) {
        let k = device_manager::place_of(left, x)->0;
        let o = if k < i {
            k
        } else {
            k + 1
        };
        assert(left[k] == queue[o]);
        assert(queue[o].job_id == x);
    }
    if holds(queue, x) && x != queue[i].job_id {
        let k = device_manager::place_of(queue, x)->0;
        let o = if k < i {
            k
        } else {
            k - 1
        };
        assert(left[o] == queue[k]);
    }
}

proof fn lemma_removed_distinct(queue: Seq<QueueEntry>, i: int)
    requires
        distinct(queue),
        0 <= i < queue.len(),
    ensures
        distinct(queue.remove(i)),
{
    let left = queue.remove(i);
    assert forall|a: int, b: int| 0 <= a < b < left.len() implies (#[trigger] left[a]).job_id != (
    #[trigger] left[b]).job_id by {
        let x = if a < i {
            a
        } else {
            a + 1
        };
        let y = if b < i {
            b
        } else {
            b + 1
        };
        assert(left[a] == queue[x] && left[b] == queue[y]);
    }
}

proof fn lemma_without_holds(queue: Seq<QueueEntry>, id: JobId)
    requires
        distinct(queue),
        device_manager::by_priority(queue),
    ensures
        distinct(device_manager::without(queue, id)),
        device_manager::by_priority(device_manager::without(queue, id)),
        forall|x: JobId| #[trigger]
            holds(device_manager::without(queue, id), x) <==> holds(queue, x) && x != id,
{
    let left = device_manager::without(queue, id);
    device_manager::lemma_place_of(queue, id);
    match device_manager::place_of(queue, id) {
        Some(i) => {
            device_manager::law_removal_keeps_priority_order(queue, i);
            lemma_removed_distinct(queue, i);
            assert forall|x: JobId| #[trigger] holds(left, x) <==> holds(queue, x) && x != id by {
                lemma_removed_holds(queue, i, x);
            }
        },
        None => {},
    }
}

proof fn lemma_enqueued_holds(queue: Seq<QueueEntry>, entry: QueueEntry)
    requires
        distinct(queue),
        device_manager::by_priority(queue),
        !holds(queue, entry.job_id),
    ensures
        distinct(device_manager::enqueued(queue, entry)),
        device_manager::by_priority(device_manager::enqueued(queue, entry)),
        forall|x: JobId| #[trigger]
            holds(device_manager::enqueued(queue, entry), x) <==> holds(queue, x) || x
                == entry.job_id,
{
    let all = device_manager::enqueued(queue, entry);
    device_manager::law_enqueue_keeps_priority_order(queue, entry);
    let k = choose|k: int|
        0 <= k <= queue.len() && all == #[trigger] queue.insert(k, entry) && (forall|i: int|
            0 <= i < k ==> (#[trigger] queue[i]).priority <= entry.priority) && (forall|i: int|
            k <= i < queue.len() ==> (#[trigger] queue[i]).priority > entry.priority);
    device_manager::lemma_place_of(queue, entry.job_id);
    assert forall|a: int, b: int| 0 <= a < b < all.len() implies (#[trigger] all[a]).job_id != (
    #[trigger] all[b]).job_id by {
        let x = if a < k {
            queue[a]
        } else if a == k {
            entry
        } else {
            queue[a - 1]
        };
        let y = if b < k {
            queue[b]
        } else if b == k {
            entry
        } else {
            queue[b - 1]
        };
        assert(all[a] == x && all[b] == y);
    }
    assert forall|x: JobId| #[trigger] holds(all, x) <==> holds(queue, x) || x == entry.job_id by {
        device_manager::lemma_place_of(queue, x);
        device_manager::lemma_place_of(all, x);
        if holds(all, x) {
            let i = device_manager::place_of(all, x)->0;
            if i < k {
                assert(all[i] == queue[i]);
            } else if i > k {
                assert(all[i] == queue[i - 1]);
            }
        }
        if holds(queue, x) {
            let i = device_manager::place_of(queue, x)->0;
            if i < k {
                assert(all[i] == queue[i]);
            } else {
                assert(all[i + 1] == queue[i]);
            }
        }
        if x == entry.job_id {
            assert(all[k] == entry);
        }
    }
}

/// A running job that is paused is on its way.
proof fn loosen_paused(s: Sim, id: JobId, d: DeviceId)
    requires
        placed_but(s, None),
        s.device_of(id) == Some(d),
    ensures
        placed_but(s.paused(id, d), Some(id)),
        lives_on(s, s.paused(id, d)),
        s.job(id)->0.state is Running,
        s.paused(id, d).running[d.0 as int] is None,
        s.paused(id, d).job(id)->0.state is Running,
{
    let t = s.paused(id, d);
    let i = d.0 as int;
    assert(s.running[i] == Some(id));
    assert(s.jobs[id.0 as int] is Some);
    assert forall|x: JobId| x != id implies #[trigger] t.job(x) == s.job(x) by {}
    assert(t.queues == s.queues);
    assert forall|e: int| 0 <= e < t.devices.len() implies #[trigger] t.running[e] != Some(id) by {
        if e != i {
            assert(t.running[e] == s.running[e]);
            if s.running[e] == Some(id) {
                assert(s.job(id)->0.assigned_device == Some(DeviceId(e as u32)));
            }
        }
    }
    assert forall|x: JobId| ((#[trigger] t.job(x)) matches Some(job) ==> (job.state is Running
        && x != id ==> t.device_of(x) is Some)) by {
        if x != id && t.job(x) is Some && t.job(x)->0.state is Running {
            assert(s.device_of(x) is Some);
            let e = s.device_of(x)->0;
            assert(s.running[e.0 as int] == Some(x));
            assert(e.0 != i);
        }
    }
    assert forall|e: int, x: JobId|
        0 <= e < t.devices.len() && #[trigger] holds(t.queues[e], x) implies (t.job(
        x,
    ) matches Some(job) && is_queued(job)) by {
        assert(holds(s.queues[e], x));
    }
    assert forall|x: JobId| ((#[trigger] t.job(x)) matches Some(job) ==> (is_queued(job) && x
        != id ==> exists|e: int| 0 <= e < t.devices.len() && #[trigger] holds(t.queues[e], x))) by {
        if x != id && t.job(x) is Some && is_queued(t.job(x)->0) {
            assert(is_queued(s.job(x)->0));
        }
    }
    assert forall|e: int| 0 <= e < t.devices.len() implies !holds(#[trigger] t.queues[e], id) by {
        if holds(s.queues[e], id) {
            assert(is_queued(s.job(id)->0));
        }
    }
    assert forall|e: int| 0 <= e < t.devices.len() implies ((#[trigger] t.running[e]) matches Some(
        x,
    ) ==> (t.job(x) matches Some(job) && job.state is Running && job.assigned_device == Some(
        DeviceId(e as u32),
    ))) by {
        if e != i {
            assert(t.running[e] == s.running[e]);
        }
    }
    assert forall|k: int| 0 <= k < t.jobs.len() implies ((#[trigger] t.jobs[k]) matches Some(job)
        && job.id == JobId(k as u64)) by {
        assert(s.jobs[k] is Some);
    }
    assert forall|k: int| 0 <= k < s.jobs.len() implies ((#[trigger] s.jobs[k]) matches Some(a)
        ==> (t.jobs[k] matches Some(b) && outlives(a, b))) by {}
}

/// A job that is not running is on its way once it is in no queue.
proof fn loosen_unqueued(s: Sim, id: JobId, free: Option<JobId>)
    requires
        placed_but(s, free),
        s.job(id) is Some,
        free is None ==> !(s.job(id)->0.state is Running),
        free is Some ==> free == Some(id),
    ensures
        placed_but(s.unqueued(id), Some(id)),
        s.unqueued(id).jobs == s.jobs,
        s.unqueued(id).running == s.running,
{
    let t = s.unqueued(id);
    assert forall|d: int| 0 <= d < t.devices.len() implies #[trigger] t.queues[d]
        == device_manager::without(s.queues[d], id) && distinct(t.queues[d])
        && device_manager::by_priority(t.queues[d]) && (forall|x: JobId| #[trigger]
        holds(t.queues[d], x) <==> holds(s.queues[d], x) && x != id) by {
        lemma_without_holds(s.queues[d], id);
    }
    assert forall|x: JobId| #[trigger] t.job(x) == s.job(x) by {}
    assert forall|x: JobId| ((#[trigger] t.job(x)) matches Some(job) ==> (job.state is Running
        && x != id ==> t.device_of(x) is Some)) by {
        if t.job(x) is Some && t.job(x)->0.state is Running && x != id {
            assert(s.job(x) is Some);
            assert(s.device_of(x) is Some);
            assert(t.device_of(x) == s.device_of(x));
        }
    }
    assert forall|d: int, x: JobId|
        0 <= d < t.devices.len() && #[trigger] holds(t.queues[d], x) implies (t.job(
        x,
    ) matches Some(job) && is_queued(job)) by {
        assert(holds(s.queues[d], x));
    }
    assert forall|d: int, e: int, x: JobId| 0 <= d < e < t.devices.len() implies !(
    #[trigger] holds(t.queues[d], x) && #[trigger] holds(t.queues[e], x)) by {
        if holds(t.queues[d], x) && holds(t.queues[e], x) {
            assert(holds(s.queues[d], x) && holds(s.queues[e], x));
        }
    }
    assert forall|x: JobId| ((#[trigger] t.job(x)) matches Some(job) ==> (is_queued(job) && x
        != id ==> exists|d: int| 0 <= d < t.devices.len() && #[trigger] holds(t.queues[d], x))) by {
        if t.job(x) is Some && is_queued(t.job(x)->0) && x != id {
            assert(s.job(x) is Some);
            let d = choose|d: int| 0 <= d < s.devices.len() && #[trigger] holds(s.queues[d], x);
            assert(holds(t.queues[d], x));
        }
    }
    assert forall|d: int| 0 <= d < t.devices.len() implies #[trigger] t.running[d] != Some(id) by {
        if s.running[d] == Some(id) {
            assert(s.job(id)->0.state is Running);
        }
    }
    assert forall|d: int| 0 <= d < t.devices.len() implies !holds(#[trigger] t.queues[d], id) by {
        assert(t.queues[d] == device_manager::without(s.queues[d], id));
    }
}

/// What replacing a job on its way leaves alone.
proof fn replaced(s: Sim, id: JobId, job: Job)
    requires
        placed_but(s, Some(id)),
        !(s.job(id)->0.state.terminal()),
        device_manager::same_face(s.job(id)->0, job),
        s.job(id)->0.dag_provenance == job.dag_provenance,
        s.job(id)->0.version <= job.version,
    ensures
        lives_on(s, s.with_job(id, job)),
        s.with_job(id, job).job(id) == Some(job),
        forall|x: JobId| x != id ==> #[trigger] s.with_job(id, job).job(x) == s.job(x),
        forall|i: int|
            0 <= i < s.jobs.len() ==> ((#[trigger] s.with_job(id, job).jobs[i]) matches Some(j)
                && j.id == JobId(i as u64)),
{
    let t = s.with_job(id, job);
    assert(s.jobs[id.0 as int] is Some);
    assert forall|i: int| 0 <= i < s.jobs.len() implies ((#[trigger] t.jobs[i]) matches Some(j)
        && j.id == JobId(i as u64)) by {
        assert(s.jobs[i] is Some);
    }
}

/// A job on its way comes to rest where its new state needs no place.
proof fn settle_away(s: Sim, id: JobId, job: Job)
    requires
        placed_but(s, Some(id)),
        !(s.job(id)->0.state.terminal()),
        device_manager::same_face(s.job(id)->0, job),
        s.job(id)->0.dag_provenance == job.dag_provenance,
        s.job(id)->0.version <= job.version,
        !(job.state is Running),
        !is_queued(job),
    ensures
        placed_but(s.with_job(id, job), None),
        lives_on(s, s.with_job(id, job)),
{
    let t = s.with_job(id, job);
    replaced(s, id, job);
    assert forall|d: int| 0 <= d < t.devices.len() implies ((#[trigger] t.running[d]) matches Some(
        x,
    ) ==> (t.job(x) matches Some(j) && j.state is Running && j.assigned_device == Some(
        DeviceId(d as u32),
    ))) by {
        assert(t.running[d] == s.running[d]);
    }
    assert forall|x: JobId| ((#[trigger] t.job(x)) matches Some(j) ==> (j.state is Running
        ==> t.device_of(x) is Some)) by {
        if x != id && s.job(x) is Some && s.job(x)->0.state is Running {
            assert(s.device_of(x) is Some);
        }
    }
    assert forall|d: int, x: JobId|
        0 <= d < t.devices.len() && #[trigger] holds(t.queues[d], x) implies (t.job(
        x,
    ) matches Some(j) && is_queued(j)) by {
        assert(holds(s.queues[d], x));
        assert(!holds(s.queues[d], id));
    }
    assert forall|x: JobId| ((#[trigger] t.job(x)) matches Some(j) ==> (is_queued(j)
        ==> exists|d: int| 0 <= d < t.devices.len() && #[trigger] holds(t.queues[d], x))) by {
        if x != id && s.job(x) is Some && is_queued(s.job(x)->0) {
            let d = choose|d: int| 0 <= d < s.devices.len() && #[trigger] holds(s.queues[d], x);
            assert(holds(t.queues[d], x));
        }
    }
}

/// A job on its way comes to rest on an idle device.
proof fn settle_running(s: Sim, id: JobId, job: Job, d: DeviceId)
    requires
        placed_but(s, Some(id)),
        !(s.job(id)->0.state.terminal()),
        device_manager::same_face(s.job(id)->0, job),
        s.job(id)->0.dag_provenance == job.dag_provenance,
        s.job(id)->0.version <= job.version,
        job.state is Running,
        job.assigned_device == Some(d),
        s.has_device(d),
        s.running[d.0 as int] is None,
    ensures
        ({
            let t = Sim {
                running: s.running.update(d.0 as int, Some(id)),
                ..s.with_job(id, job)
            };
            placed_but(t, None) && lives_on(s, t)
        }),
{
    let t = Sim { running: s.running.update(d.0 as int, Some(id)), ..s.with_job(id, job) };
    let i = d.0 as int;
    replaced(s, id, job);
    assert(forall|x: JobId| #[trigger] t.job(x) == s.with_job(id, job).job(x));
    assert forall|e: int| 0 <= e < t.devices.len() implies ((#[trigger] t.running[e]) matches Some(
        x,
    ) ==> (t.job(x) matches Some(j) && j.state is Running && j.assigned_device == Some(
        DeviceId(e as u32),
    ))) by {
        if e != i {
            assert(t.running[e] == s.running[e]);
        }
    }
    assert forall|x: JobId| ((#[trigger] t.job(x)) matches Some(j) ==> (j.state is Running
        ==> t.device_of(x) is Some)) by {
        if x == id {
            assert(t.running[i] == Some(id));
        } else if s.job(x) is Some && s.job(x)->0.state is Running {
            assert(s.device_of(x) is Some);
            let e = s.device_of(x)->0;
            assert(s.running[e.0 as int] == Some(x));
            assert(e.0 != i);
        }
    }
    assert forall|e: int, x: JobId|
        0 <= e < t.devices.len() && #[trigger] holds(t.queues[e], x) implies (t.job(
        x,
    ) matches Some(j) && is_queued(j)) by {
        assert(holds(s.queues[e], x));
        assert(!holds(s.queues[e], id));
    }
    assert forall|x: JobId| ((#[trigger] t.job(x)) matches Some(j) ==> (is_queued(j)
        ==> exists|e: int| 0 <= e < t.devices.len() && #[trigger] holds(t.queues[e], x))) by {
        if x != id && s.job(x) is Some && is_queued(s.job(x)->0) {
            let e = choose|e: int| 0 <= e < s.devices.len() && #[trigger] holds(s.queues[e], x);
            assert(holds(t.queues[e], x));
        }
    }
    assert forall|k: int| 0 <= k < t.jobs.len() implies ((#[trigger] t.jobs[k]) matches Some(j)
        && j.id == JobId(k as u64)) by {
        assert(s.with_job(id, job).jobs[k] is Some);
    }
    assert forall|k: int| 0 <= k < s.jobs.len() implies ((#[trigger] s.jobs[k]) matches Some(a)
        ==> (t.jobs[k] matches Some(b) && outlives(a, b))) by {}
}

/// A job on its way comes to rest in the queue of a device.
proof fn settle_queued(s: Sim, id: JobId, job: Job, d: DeviceId)
    requires
        placed_but(s, Some(id)),
        !(s.job(id)->0.state.terminal()),
        device_manager::same_face(s.job(id)->0, job),
        s.job(id)->0.dag_provenance == job.dag_provenance,
        s.job(id)->0.version <= job.version,
        is_queued(job),
        s.has_device(d),
    ensures
        placed_but(s.with_job(id, job).queued(id, d), None),
        lives_on(s, s.with_job(id, job).queued(id, d)),
{
    let m = s.with_job(id, job);
    let t = m.queued(id, d);
    let i = d.0 as int;
    replaced(s, id, job);
    let entry = QueueEntry { priority: job.effective_priority, job_id: id };
    assert(!holds(s.queues[i], id));
    lemma_enqueued_holds(s.queues[i], entry);
    assert(t.queues[i] == device_manager::enqueued(s.queues[i], entry));
    assert forall|e: int| 0 <= e < t.devices.len() && e != i implies #[trigger] t.queues[e]
        == s.queues[e] by {}
    assert forall|e: int, x: JobId| 0 <= e < t.devices.len() implies (#[trigger] holds(
        t.queues[e],
        x,
    ) <==> holds(s.queues[e], x) || (e == i && x == id)) by {}
    assert(forall|x: JobId| #[trigger] t.job(x) == m.job(x));
    assert forall|e: int| 0 <= e < t.devices.len() implies ((#[trigger] t.running[e]) matches Some(
        x,
    ) ==> (t.job(x) matches Some(j) && j.state is Running && j.assigned_device == Some(
        DeviceId(e as u32),
    ))) by {
        assert(t.running[e] == s.running[e]);
    }
    assert forall|x: JobId| ((#[trigger] t.job(x)) matches Some(j) ==> (j.state is Running
        ==> t.device_of(x) is Some)) by {
        if x != id && s.job(x) is Some && s.job(x)->0.state is Running {
            assert(s.device_of(x) is Some);
        }
    }
    assert forall|e: int| 0 <= e < t.devices.len() implies distinct(#[trigger] t.queues[e])
        && device_manager::by_priority(t.queues[e]) by {
        if e != i {
            assert(t.queues[e] == s.queues[e]);
        }
    }
    assert forall|e: int, x: JobId|
        0 <= e < t.devices.len() && #[trigger] holds(t.queues[e], x) implies (t.job(
        x,
    ) matches Some(j) && is_queued(j)) by {
        if x != id {
            assert(holds(s.queues[e], x));
        }
    }
    assert forall|a: int, b: int, x: JobId| 0 <= a < b < t.devices.len() implies !(
    #[trigger] holds(t.queues[a], x) && #[trigger] holds(t.queues[b], x)) by {
        if holds(t.queues[a], x) && holds(t.queues[b], x) {
            if x == id {
                assert(!holds(s.queues[a], id));
                assert(!holds(s.queues[b], id));
            } else {
                assert(holds(s.queues[a], x) && holds(s.queues[b], x));
            }
        }
    }
    assert forall|x: JobId| ((#[trigger] t.job(x)) matches Some(j) ==> (is_queued(j)
        ==> exists|e: int| 0 <= e < t.devices.len() && #[trigger] holds(t.queues[e], x))) by {
        if x == id {
            assert(holds(t.queues[i], id));
        } else if s.job(x) is Some && is_queued(s.job(x)->0) {
            let e = choose|e: int| 0 <= e < s.devices.len() && #[trigger] holds(s.queues[e], x);
            assert(holds(t.queues[e], x));
        }
    }
    assert forall|k: int| 0 <= k < t.jobs.len() implies ((#[trigger] t.jobs[k]) matches Some(j)
        && j.id == JobId(k as u64)) by {
        assert(m.jobs[k] is Some);
    }
}

/// Places depend on jobs, devices and queues only.
proof fn placed_same(s: Sim, t: Sim)
    requires
        placed_but(s, None),
        t.devices == s.devices,
        t.running == s.running,
        t.queues == s.queues,
        t.busy == s.busy,
        t.jobs == s.jobs,
    ensures
        placed_but(t, None),
        lives_on(s, t),
{
    assert forall|x: JobId| #[trigger] t.job(x) == s.job(x) by {}
    assert forall|x: JobId| #[trigger] t.device_of(x) == s.device_of(x) by {}
    assert forall|x: JobId| ((#[trigger] t.job(x)) matches Some(j) ==> (j.state is Running
        ==> t.device_of(x) is Some)) by {
        assert(s.job(x) == t.job(x));
    }
    assert forall|d: int, x: JobId|
        0 <= d < t.devices.len() && #[trigger] holds(t.queues[d], x) implies (t.job(
        x,
    ) matches Some(j) && is_queued(j)) by {
        assert(holds(s.queues[d], x));
    }
    assert forall|x: JobId| ((#[trigger] t.job(x)) matches Some(j) ==> (is_queued(j)
        ==> exists|d: int| 0 <= d < t.devices.len() && #[trigger] holds(t.queues[d], x))) by {
        assert(s.job(x) == t.job(x));
    }
}

proof fn keep_scheduled(s: Sim, time: Nanos, kind: EventKind)
    requires
        sound(s),
        time >= s.now,
    ensures
        sound(s.scheduled(time, kind)),
        lives_on(s, s.scheduled(time, kind)),
{
    let t = s.scheduled(time, kind);
    placed_same(s, t);
    if s.seq < u64::MAX {
        let new = Event { time, seq: s.seq, kind };
        assert(s.events.count(new) == 0) by {
            if s.events.count(new) > 0 {
                assert(new.seq < s.seq);
            }
        }
        assert forall|e: Event| #[trigger] t.events.count(e) > 0 implies e.time >= t.now && e.seq
            < t.seq && t.events.count(e) == 1 by {
            if e != new {
                assert(s.events.count(e) > 0);
            }
        }
        assert forall|a: Event, b: Event|
            #[trigger] t.events.count(a) > 0 && #[trigger] t.events.count(b) > 0 && a.seq
                == b.seq implies a == b by {
            if a != new {
                assert(s.events.count(a) > 0);
            }
            if b != new {
                assert(s.events.count(b) > 0);
            }
        }
    }
}

/// A new event that is not in the past keeps the state sound.
pub proof fn law_scheduling_keeps_soundness(s: Sim, time: Nanos, kind: EventKind)
    requires
        sound(s),
        time >= s.now,
    ensures
        sound(s.scheduled(time, kind)),
        lives_on(s, s.scheduled(time, kind)),
{
    keep_scheduled(s, time, kind);
}

proof fn keep_scheduled_all(s: Sim, list: Seq<ScheduledEvent>)
    requires
        sound(s),
        transfer_manager::not_past(list, s.now),
    ensures
        sound(s.scheduled_all(list)),
        lives_on(s, s.scheduled_all(list)),
        s.scheduled_all(list).now == s.now,
    decreases list.len(),
{
    if list.len() == 0 {
        placed_same(s, s);
    } else {
        let rest = list.drop_last();
        assert forall|i: int| 0 <= i < rest.len() implies (#[trigger] rest[i]).time >= s.now by {
            assert(rest[i] == list[i]);
        }
        keep_scheduled_all(s, rest);
        let m = s.scheduled_all(rest);
        assert(list[list.len() - 1].time >= s.now);
        keep_scheduled(m, list.last().time, list.last().kind);
        lemma_lives_on(s, m, s.scheduled_all(list));
    }
}

proof fn keep_started(s: Sim, id: JobId, d: DeviceId, penalty: Nanos)
    requires
        sound(s),
        s.job(id) is Some,
        !s.job(id)->0.state.terminal(),
        !(s.job(id)->0.state is Running),
        s.has_device(d),
        s.running[d.0 as int] is None,
    ensures
        sound(s.started(id, d, penalty)),
        lives_on(s, s.started(id, d, penalty)),
{
    let job = s.job(id)->0;
    let device = s.devices[d.0 as int];
    let model = crate::virtual_device::VirtualDeviceModel::of(device.preemption);
    let exec = s.exec_time(id, d);
    let wall = arith::time_at_rate(
        arith::sat_sub(exec, job.executed_ns),
        sim::speed_of(device),
    );
    let begin = arith::sat_add(s.now, penalty);
    let timing = model.timing_of(
        crate::virtual_device::DispatchTimingInput {
            now_ns: begin,
            context_switch_ns: device.context_switch_ns,
            remaining_exec_wall_ns: wall,
        },
    );
    let delay = timing.additional_dispatch_delay_ns;
    let placed = Job {
        assigned_device: Some(d),
        exec_start_time: Some(
            arith::sat_add(arith::sat_add(begin, delay), device.context_switch_ns),
        ),
        actual_exec_ns: Some(exec),
        ..sim::moved(job, JobState::Running)
    };
    loosen_unqueued(s, id, None);
    let u = s.unqueued(id);
    settle_running(u, id, placed, d);
    let a = Sim { running: u.running.update(d.0 as int, Some(id)), ..u.with_job(id, placed) };
    assert(sound(a));
    assert(lives_on(s, a)) by {
        lemma_lives_on_same(s, u, a);
    }
    let done = EventKind::JobComplete {
        job_id: id,
        expected_version: placed.version,
        device_id: d,
    };
    let b = a.scheduled(arith::sat_add(timing.completion_time_ns, delay), done);
    keep_scheduled(a, arith::sat_add(timing.completion_time_ns, delay), done);
    lemma_lives_on(s, a, b);
    let point = EventKind::PreemptionPoint {
        device_id: d,
        job_id: id,
        expected_version: placed.version,
    };
    if let Some(interval) = model.point_interval() {
        let time = arith::sat_add(timing.next_preemption_point_ns->0, delay);
        keep_scheduled(b, time, point);
        lemma_lives_on(s, b, b.scheduled(time, point));
    }
}

proof fn lemma_lives_on_same(s: Sim, u: Sim, t: Sim)
    requires
        s.jobs == u.jobs,
        lives_on(u, t),
    ensures
        lives_on(s, t),
{
    assert forall|i: int| 0 <= i < s.jobs.len() implies ((#[trigger] s.jobs[i]) matches Some(a) ==> (
    t.jobs[i] matches Some(b) && outlives(a, b))) by {
        assert(u.jobs[i] == s.jobs[i]);
    }
}

proof fn keep_enqueued(s: Sim, id: JobId, d: DeviceId)
    requires
        sound(s),
        s.job(id) is Some,
        !s.job(id)->0.state.terminal(),
        !(s.job(id)->0.state is Running),
        s.has_device(d),
    ensures
        sound(s.enqueued(id, d)),
        lives_on(s, s.enqueued(id, d)),
{
    let job = s.job(id)->0;
    let state = if job.state is Suspended {
        JobState::Suspended
    } else {
        JobState::Ready
    };
    loosen_unqueued(s, id, None);
    let u = s.unqueued(id);
    settle_queued(u, id, sim::moved(job, state), d);
    lemma_lives_on_same(s, u, s.enqueued(id, d));
}

/// A job that is not running, or was just paused, is sent off.
proof fn keep_sent(
    s: Sim,
    free: Option<JobId>,
    id: JobId,
    from: DeviceId,
    to: DeviceId,
    kind: JobTransferKind,
    state: JobState,
)
    requires
        placed_but(s, free),
        timely(s),
        s.transfers.sound(s.links),
        s.job(id) is Some,
        !s.job(id)->0.state.terminal(),
        free is None ==> !(s.job(id)->0.state is Running),
        free is Some ==> free == Some(id),
        state is Transferring || state is Migrating,
    ensures
        sound(s.sent(id, from, to, kind, state)),
        lives_on(s, s.sent(id, from, to, kind, state)),
{
    let leaving = Job { assigned_device: Some(to), ..sim::moved(s.job(id)->0, state) };
    let request = transfer_manager::TransferRequest {
        id: transfer_manager::TransferId::Job(id),
        owner_job_id: id,
        from,
        to,
        data_size: s.task_of(id).data_size,
        reason: transfer_manager::TransferReason::Job(kind),
        priority: leaving.effective_priority,
        expected_version: leaving.version,
    };
    let (transfers, list) = s.transfers.requested(s.links, request, s.now);
    loosen_unqueued(s, id, free);
    let u = s.unqueued(id);
    settle_away(u, id, leaving);
    let a = Sim { transfers, ..u.with_job(id, leaving) };
    placed_same(u.with_job(id, leaving), a);
    transfer_manager::law_requests_keep_soundness(s.transfers, s.links, request, s.now);
    transfer_manager::law_requests_complete_later(s.transfers, s.links, request, s.now);
    assert(sound(a));
    lemma_lives_on_same(s, u, u.with_job(id, leaving));
    lemma_lives_on(s, u.with_job(id, leaving), a);
    keep_scheduled_all(a, list);
    lemma_lives_on(s, a, a.scheduled_all(list));
}

proof fn keep_suspended(s: Sim, id: JobId, d: DeviceId)
    requires
        sound(s),
        s.device_of(id) == Some(d),
    ensures
        sound(s.suspended(id, d)),
        lives_on(s, s.suspended(id, d)),
        s.suspended(id, d).running[d.0 as int] is None,
{
    loosen_paused(s, id, d);
    let p = s.paused(id, d);
    let job = sim::moved(p.job(id)->0, JobState::Suspended);
    settle_queued(p, id, job, d);
    let q = p.with_job(id, job).queued(id, d);
    placed_same(q, s.suspended(id, d));
    lemma_lives_on(s, p, q);
    lemma_lives_on(s, q, s.suspended(id, d));
}

proof fn keep_ended(s: Sim, id: JobId, state: JobState)
    requires
        sound(s),
        s.job(id) is Some,
        !s.job(id)->0.state.terminal(),
        state.terminal(),
    ensures
        sound(s.ended(id, state)),
        lives_on(s, s.ended(id, state)),
{
    let p = match s.device_of(id) {
        Some(d) => s.paused(id, d),
        None => s,
    };
    match s.device_of(id) {
        Some(d) => {
            loosen_paused(s, id, d);
            loosen_unqueued(p, id, Some(id));
        },
        None => {
            loosen_unqueued(s, id, None);
            placed_same(s, s);
        },
    }
    let u = p.unqueued(id);
    let job = sim::moved(p.job(id)->0, state);
    settle_away(u, id, job);
    let (transfers, list) = p.transfers.cancelled(s.links, s.buses, id, s.now);
    let a = Sim { transfers, ..u.with_job(id, job) };
    placed_same(u.with_job(id, job), a);
    transfer_manager::law_cancellation(p.transfers, s.links, s.buses, id, s.now);
    assert(sound(a));
    lemma_lives_on_same(p, u, u.with_job(id, job));
    lemma_lives_on(s, p, u.with_job(id, job));
    lemma_lives_on(s, u.with_job(id, job), a);
    keep_scheduled_all(a, list);
    lemma_lives_on(s, a, a.scheduled_all(list));
}

proof fn keep_dispatched(s: Sim, id: JobId, d: DeviceId)
    requires
        sound(s),
    ensures
        sound(s.dispatched(id, d)),
        lives_on(s, s.dispatched(id, d)),
{
    placed_same(s, s);
    if s.placeable(id, d) {
        if s.needs_transfer(id, d) {
            keep_sent(
                s,
                None,
                id,
                s.origin(id)->0,
                d,
                JobTransferKind::Dispatch,
                JobState::Transferring,
            );
        } else if s.running[d.0 as int] is None {
            keep_started(s, id, d, 0);
        } else {
            keep_enqueued(s, id, d);
        }
    }
}

proof fn keep_preempted(s: Sim, victim: JobId, by: JobId, d: DeviceId, at_point: bool)
    requires
        sound(s),
    ensures
        sound(s.preempted(victim, by, d, at_point)),
        lives_on(s, s.preempted(victim, by, d, at_point)),
{
    placed_same(s, s);
    if s.placeable(by, d) && s.device_of(victim) == Some(d) {
        if s.needs_transfer(by, d) {
            keep_sent(
                s,
                None,
                by,
                s.origin(by)->0,
                d,
                JobTransferKind::Dispatch,
                JobState::Transferring,
            );
        } else if s.grants(d, at_point) {
            let model = crate::virtual_device::VirtualDeviceModel::of(
                s.devices[d.0 as int].preemption,
            );
            keep_suspended(s, victim, d);
            let m = s.suspended(victim, d);
            assert(s.running[d.0 as int] == Some(victim));
            assert(s.job(victim)->0.state is Running);
            assert(by != victim);
            assert(m.job(by) == s.job(by));
            keep_started(m, by, d, model.penalty_of());
            lemma_lives_on(s, m, m.started(by, d, model.penalty_of()));
        } else {
            keep_enqueued(s, by, d);
        }
    }
}

proof fn keep_migrated(s: Sim, id: JobId, from: DeviceId, to: DeviceId)
    requires
        sound(s),
    ensures
        sound(s.migrated(id, from, to)),
        lives_on(s, s.migrated(id, from, to)),
{
    placed_same(s, s);
    let t = s.migrated(id, from, to);
    if s.known(id) && s.has_device(from) && s.has_device(to) && from != to && s.executable(
        id,
        to,
    ) {
        if s.device_of(id) == Some(from) {
            loosen_paused(s, id, from);
            let p = s.paused(id, from);
            keep_sent(
                p,
                Some(id),
                id,
                from,
                to,
                JobTransferKind::Migration,
                JobState::Migrating,
            );
            let m = p.sent(id, from, to, JobTransferKind::Migration, JobState::Migrating);
            lemma_lives_on(s, p, m);
            placed_same(m, t);
            lemma_lives_on(s, m, t);
        } else if device_manager::place_of(s.queues[from.0 as int], id) is Some {
            assert(holds(s.queues[from.0 as int], id));
            keep_sent(
                s,
                None,
                id,
                from,
                to,
                JobTransferKind::Migration,
                JobState::Migrating,
            );
            let m = s.sent(id, from, to, JobTransferKind::Migration, JobState::Migrating);
            placed_same(m, t);
            lemma_lives_on(s, m, t);
        }
    }
}

proof fn keep_dropped(s: Sim, id: JobId)
    requires
        sound(s),
    ensures
        sound(s.dropped(id)),
        lives_on(s, s.dropped(id)),
{
    placed_same(s, s);
    if let Some(job) = s.job(id) {
        if !job.state.terminal() {
            keep_ended(s, id, JobState::Dropped);
        }
    }
}

/// An action of the scheduler keeps the state sound, whatever it is.
pub proof fn law_action_keeps_soundness(s: Sim, action: Action, at: Option<DeviceId>)
    requires
        sound(s),
    ensures
        sound(s.applied(action, at)),
        lives_on(s, s.applied(action, at)),
{
    reveal(Sim::applied);
    match action {
        Action::Dispatch { job_id, device_id } => {
            keep_dispatched(s, job_id, device_id);
        },
        Action::Preempt { victim, by, device_id } => {
            keep_preempted(s, victim, by, device_id, at == Some(device_id));
        },
        Action::Migrate { job_id, from, to } => {
            keep_migrated(s, job_id, from, to);
        },
        Action::Enqueue { job_id, device_id } => {
            placed_same(s, s);
            if s.placeable(job_id, device_id) {
                keep_enqueued(s, job_id, device_id);
            }
        },
        Action::DropJob { job_id } => {
            keep_dropped(s, job_id);
        },
        Action::NoOp => {
            placed_same(s, s);
        },
    }
}

/// Actions of the scheduler keep the state sound, whatever they are.
pub proof fn law_actions_keep_soundness(s: Sim, actions: Seq<Action>, at: Option<DeviceId>)
    requires
        sound(s),
    ensures
        sound(s.applied_all(actions, at)),
        lives_on(s, s.applied_all(actions, at)),
    decreases actions.len(),
{
    if actions.len() == 0 {
        placed_same(s, s);
    } else {
        law_actions_keep_soundness(s, actions.drop_last(), at);
        let m = s.applied_all(actions.drop_last(), at);
        law_action_keeps_soundness(m, actions.last(), at);
        lemma_lives_on(s, m, s.applied_all(actions, at));
    }
}

/// A new job keeps the state sound.
pub proof fn law_new_job_keeps_soundness(s: Sim, job: Job)
    requires
        sound(s),
        job.id == JobId(s.jobs.len() as u64),
        job.state is Released,
    ensures
        sound(s.with_new_job(job)),
        lives_on(s, s.with_new_job(job)),
{
    let t = s.with_new_job(job);
    assert forall|x: JobId| s.job(x) is Some implies #[trigger] t.job(x) == s.job(x) by {}
    assert forall|x: JobId| s.job(x) is None && (#[trigger] t.job(x)) is Some implies t.job(x)
        == Some(job) by {
        if x.0 < s.jobs.len() {
            assert(s.jobs[x.0 as int] is Some);
        }
    }
    assert forall|d: int| 0 <= d < t.devices.len() implies ((#[trigger] t.running[d]) matches Some(
        x,
    ) ==> (t.job(x) matches Some(j) && j.state is Running && j.assigned_device == Some(
        DeviceId(d as u32),
    ))) by {
        assert(t.running[d] == s.running[d]);
    }
    assert forall|x: JobId| ((#[trigger] t.job(x)) matches Some(j) ==> (j.state is Running
        ==> t.device_of(x) is Some)) by {
        if s.job(x) is Some {
            assert(t.job(x) == s.job(x));
            if t.job(x)->0.state is Running {
                assert(s.device_of(x) is Some);
            }
        }
    }
    assert forall|d: int, x: JobId|
        0 <= d < t.devices.len() && #[trigger] holds(t.queues[d], x) implies (t.job(
        x,
    ) matches Some(j) && is_queued(j)) by {
        assert(holds(s.queues[d], x));
    }
    assert forall|x: JobId| ((#[trigger] t.job(x)) matches Some(j) ==> (is_queued(j)
        ==> exists|d: int| 0 <= d < t.devices.len() && #[trigger] holds(t.queues[d], x))) by {
        if s.job(x) is Some {
            assert(t.job(x) == s.job(x));
            if is_queued(s.job(x)->0) {
                let d = choose|d: int|
                    0 <= d < s.devices.len() && #[trigger] holds(s.queues[d], x);
                assert(holds(t.queues[d], x));
            }
        } else if t.job(x) is Some {
            assert(t.job(x) == Some(job));
        }
    }
    assert forall|i: int| 0 <= i < t.jobs.len() implies ((#[trigger] t.jobs[i]) matches Some(j)
        && j.id == JobId(i as u64)) by {
        if i < s.jobs.len() {
            assert(s.jobs[i] is Some);
        }
    }
}

proof fn keep_released(s: Sim, task_id: TaskId, time: Nanos, provenance: Option<DagProvenance>)
    requires
        sound(s),
        time >= s.now,
    ensures
        sound(s.released(task_id, time, provenance)),
        lives_on(s, s.released(task_id, time, provenance)),
{
    let task = s.tasks[task_id.0 as int];
    let id = JobId(s.jobs.len() as u64);
    let deadline = arith::sat_add(time, task.deadline);
    let job = Job {
        dag_provenance: provenance,
        ..Job::fresh(id, task_id, time, deadline, None, task.priority)
    };
    law_new_job_keeps_soundness(s, job);
    let a = s.with_new_job(job);
    let arrival = EventKind::TaskArrival { task_id, job_id: id };
    keep_scheduled(a, time, arrival);
    let b = a.scheduled(time, arrival);
    let check = EventKind::DeadlineCheck { job_id: id, expected_version: 0 };
    keep_scheduled(b, arith::sat_add(deadline, 1), check);
    lemma_lives_on(s, a, b);
    lemma_lives_on(s, b, s.released(task_id, time, provenance));
}

/// The first releases keep the state sound.
pub proof fn law_initial_arrivals_keep_soundness(s: Sim, n: int)
    requires
        sound(s),
    ensures
        sound(s.first_released(n)),
        lives_on(s, s.first_released(n)),
        s.first_released(n).now == s.now,
    decreases n,
{
    if n <= 0 {
        placed_same(s, s);
    } else {
        law_initial_arrivals_keep_soundness(s, n - 1);
        let m = s.first_released(n - 1);
        if s.tasks[n - 1].release_period() is Some {
            keep_released(m, TaskId((n - 1) as u32), s.now, None);
            lemma_lives_on(s, m, s.first_released(n));
        }
    }
}

proof fn keep_next_released(s: Sim, task_id: TaskId)
    requires
        sound(s),
    ensures
        sound(s.next_released(task_id)),
        lives_on(s, s.next_released(task_id)),
{
    placed_same(s, s);
    if let Some(period) = s.tasks[task_id.0 as int].release_period() {
        keep_released(s, task_id, arith::sat_add(s.now, period), None);
    }
}

proof fn keep_nodes_released(s: Sim, tasks: Seq<TaskId>, instance: DagInstanceId)
    requires
        sound(s),
    ensures
        sound(s.nodes_released(tasks, instance)),
        lives_on(s, s.nodes_released(tasks, instance)),
        s.nodes_released(tasks, instance).now == s.now,
    decreases tasks.len(),
{
    if tasks.len() == 0 {
        placed_same(s, s);
    } else {
        keep_nodes_released(s, tasks.drop_last(), instance);
        let m = s.nodes_released(tasks.drop_last(), instance);
        let task_id = tasks.last();
        keep_released(m, task_id, s.now, s.provenance(instance, task_id));
        lemma_lives_on(
            s,
            m,
            m.released(task_id, s.now, s.provenance(instance, task_id)),
        );
    }
}

proof fn keep_edge_satisfied(s: Sim, edge: EdgeTransferId)
    requires
        sound(s),
    ensures
        sound(s.edge_satisfied(edge)),
        lives_on(s, s.edge_satisfied(edge)),
{
    placed_same(s, s);
    if edge.dag_instance_id.0 < s.dags.len() {
        let i = edge.dag_instance_id.0 as int;
        let (state, tasks) = s.dags[i].marked(edge.from_node, edge.to_node);
        let m = Sim { dags: s.dags.update(i, state), ..s };
        placed_same(s, m);
        keep_nodes_released(m, tasks, edge.dag_instance_id);
        lemma_lives_on(s, m, s.edge_satisfied(edge));
    }
}

proof fn keep_handed_on(
    s: Sim,
    id: JobId,
    d: DeviceId,
    provenance: DagProvenance,
    to_node: SubTaskIdx,
    bytes: u64,
)
    requires
        sound(s),
    ensures
        sound(s.handed_on(id, d, provenance, to_node, bytes)),
        lives_on(s, s.handed_on(id, d, provenance, to_node, bytes)),
{
    let edge = EdgeTransferId {
        dag_instance_id: provenance.dag_instance_id,
        from_node: provenance.node,
        to_node,
    };
    let target = match s.dags[provenance.dag_instance_id.0 as int].task_of(to_node) {
        Some(task_id) => if task_id.0 < s.tasks.len() {
            s.successor_device(task_id, d)
        } else {
            d
        },
        None => d,
    };
    if target == d {
        keep_edge_satisfied(s, edge);
    } else {
        let job = s.job(id)->0;
        let request = transfer_manager::TransferRequest {
            id: transfer_manager::TransferId::Edge(edge),
            owner_job_id: id,
            from: d,
            to: target,
            data_size: bytes,
            reason: transfer_manager::TransferReason::Edge,
            priority: job.effective_priority,
            expected_version: job.version,
        };
        let (transfers, list) = s.transfers.requested(s.links, request, s.now);
        let a = Sim { transfers, ..s };
        placed_same(s, a);
        transfer_manager::law_requests_keep_soundness(s.transfers, s.links, request, s.now);
        transfer_manager::law_requests_complete_later(s.transfers, s.links, request, s.now);
        keep_scheduled_all(a, list);
        lemma_lives_on(s, a, a.scheduled_all(list));
    }
}

proof fn keep_all_handed_on(
    s: Sim,
    id: JobId,
    d: DeviceId,
    provenance: DagProvenance,
    list: Seq<(SubTaskIdx, u64)>,
)
    requires
        sound(s),
    ensures
        sound(s.all_handed_on(id, d, provenance, list)),
        lives_on(s, s.all_handed_on(id, d, provenance, list)),
    decreases list.len(),
{
    if list.len() == 0 {
        placed_same(s, s);
    } else {
        keep_all_handed_on(s, id, d, provenance, list.drop_last());
        let m = s.all_handed_on(id, d, provenance, list.drop_last());
        keep_handed_on(m, id, d, provenance, list.last().0, list.last().1);
        lemma_lives_on(s, m, s.all_handed_on(id, d, provenance, list));
    }
}

proof fn keep_completing(s: Sim, id: JobId, d: DeviceId)
    requires
        sound(s),
        s.device_of(id) == Some(d),
    ensures
        sound(s.completing(id, d)),
        lives_on(s, s.completing(id, d)),
{
    loosen_paused(s, id, d);
    let p = s.paused(id, d);
    let job = p.job(id)->0;
    let done = Job {
        executed_ns: match job.actual_exec_ns {
            Some(ns) => ns,
            None => job.executed_ns,
        },
        ..sim::moved(job, JobState::Completed)
    };
    settle_away(p, id, done);
    let record = crate::metrics::CompletionRecord {
        job_id: id,
        task_id: job.task_id,
        release_time: job.release_time,
        completion_time: s.now,
    };
    let a = Sim {
        tally: sim::Tally {
            completed: arith::sat_add(s.tally.completed, 1),
            completions: s.tally.completions.push(record),
            ..s.tally
        },
        ..p.with_job(id, done)
    };
    placed_same(p.with_job(id, done), a);
    lemma_lives_on(s, p, p.with_job(id, done));
    lemma_lives_on(s, p.with_job(id, done), a);
    assert(s.completing(id, d) == a.succeeded(id, d));
    placed_same(a, a);
    if let Some(pr) = a.job(id)->0.dag_provenance {
        if pr.dag_instance_id.0 < a.dags.len() {
            let list = crate::dag_tracker::outgoing(
                a.dags[pr.dag_instance_id.0 as int].bytes,
                pr.node,
            );
            keep_all_handed_on(a, id, d, pr, list);
            lemma_lives_on(s, a, a.all_handed_on(id, d, pr, list));
        }
    }
}

proof fn keep_landed(s: Sim, id: JobId, d: DeviceId)
    requires
        sound(s),
    ensures
        sound(s.landed(id, d)),
        lives_on(s, s.landed(id, d)),
{
    placed_same(s, s);
    if s.known(id) && s.has_device(d) && (s.job(id)->0.state is Transferring || s.job(
        id,
    )->0.state is Migrating) {
        if s.running[d.0 as int] is None {
            keep_started(s, id, d, 0);
        } else {
            keep_enqueued(s, id, d);
        }
    }
}

/// A transfer that completes leaves the state sound.
proof fn keep_transfer_done(s: Sim, id: transfer_manager::TransferId)
    requires
        sound(s),
    ensures
        ({
            let (transfers, list) = s.transfers.completed(s.links, s.buses, id, s.now);
            let t = Sim { transfers, ..s }.scheduled_all(list);
            sound(t) && lives_on(s, t)
        }),
{
    let (transfers, list) = s.transfers.completed(s.links, s.buses, id, s.now);
    let a = Sim { transfers, ..s };
    placed_same(s, a);
    transfer_manager::law_completions_keep_soundness(
        s.transfers,
        s.links,
        s.buses,
        id,
        s.now,
    );
    keep_scheduled_all(a, list);
    lemma_lives_on(s, a, a.scheduled_all(list));
}

proof fn keep_transferred(s: Sim, id: JobId, d: DeviceId)
    requires
        sound(s),
    ensures
        sound(s.transferred(id, d)),
        lives_on(s, s.transferred(id, d)),
{
    let tid = transfer_manager::TransferId::Job(id);
    keep_transfer_done(s, tid);
    let (transfers, list) = s.transfers.completed(s.links, s.buses, tid, s.now);
    let m = Sim { transfers, ..s }.scheduled_all(list);
    keep_landed(m, id, d);
    lemma_lives_on(s, m, m.landed(id, d));
}

proof fn keep_edge_transferred(s: Sim, edge: EdgeTransferId)
    requires
        sound(s),
    ensures
        sound(s.edge_transferred(edge)),
        lives_on(s, s.edge_transferred(edge)),
{
    let tid = transfer_manager::TransferId::Edge(edge);
    keep_transfer_done(s, tid);
    let (transfers, list) = s.transfers.completed(s.links, s.buses, tid, s.now);
    let m = Sim { transfers, ..s }.scheduled_all(list);
    keep_edge_satisfied(m, edge);
    lemma_lives_on(s, m, m.edge_satisfied(edge));
}

proof fn keep_arbitrated(s: Sim, bus: BusId)
    requires
        sound(s),
    ensures
        sound(s.arbitrated(bus)),
        lives_on(s, s.arbitrated(bus)),
{
    placed_same(s, s);
    if !s.transfers.busy(bus) {
        let (transfers, list) = s.transfers.next_served(s.links, s.buses, bus, s.now);
        transfer_manager::law_arbitration_finds_nothing(
            s.transfers,
            s.links,
            s.buses,
            bus,
            s.now,
        );
        let a = Sim { transfers, ..s };
        placed_same(s, a);
        keep_scheduled_all(a, list);
        lemma_lives_on(s, a, a.scheduled_all(list));
    }
}

proof fn keep_missing(s: Sim, id: JobId)
    requires
        sound(s),
        s.job(id) is Some,
        !s.job(id)->0.state.terminal(),
    ensures
        sound(s.missing(id)),
        lives_on(s, s.missing(id)),
{
    let record = crate::metrics::MissRecord {
        job_id: id,
        task_id: s.job(id)->0.task_id,
        miss_time: s.now,
    };
    let m = Sim {
        tally: sim::Tally {
            missed: arith::sat_add(s.tally.missed, 1),
            misses: s.tally.misses.push(record),
            ..s.tally
        },
        ..s
    };
    placed_same(s, m);
    keep_ended(m, id, JobState::DeadlineMissed);
    lemma_lives_on(s, m, s.missing(id));
}

proof fn keep_lo_dropped(s: Sim, n: int)
    requires
        sound(s),
    ensures
        sound(s.lo_dropped(n)),
        lives_on(s, s.lo_dropped(n)),
    decreases n,
{
    if n <= 0 {
        placed_same(s, s);
    } else {
        keep_lo_dropped(s, n - 1);
        let m = s.lo_dropped(n - 1);
        let id = JobId((n - 1) as u64);
        keep_dropped(m, id);
        lemma_lives_on(s, m, m.dropped(id));
    }
}

proof fn keep_polled(s: Sim, answers: Seq<Seq<Action>>, n: int)
    requires
        sound(s),
    ensures
        sound(s.polled(answers, n)),
        lives_on(s, s.polled(answers, n)),
    decreases n,
{
    if n <= 0 {
        placed_same(s, s);
    } else {
        keep_polled(s, answers, n - 1);
        let m = s.polled(answers, n - 1);
        law_actions_keep_soundness(m, sim::answer(answers, n), None);
        lemma_lives_on(s, m, m.applied_all(sim::answer(answers, n), None));
    }
}

proof fn keep_switched(s: Sim, answers: Seq<Seq<Action>>)
    requires
        sound(s),
    ensures
        sound(s.switched(answers)),
        lives_on(s, s.switched(answers)),
{
    let high = Sim { level: crate::task::CriticalityLevel::Hi, ..s };
    placed_same(s, high);
    law_actions_keep_soundness(high, sim::answer(answers, 0), None);
    let told = high.applied_all(sim::answer(answers, 0), None);
    lemma_lives_on(s, high, told);
    keep_lo_dropped(told, told.jobs.len() as int);
    let left = told.lo_dropped(told.jobs.len() as int);
    lemma_lives_on(s, told, left);
    keep_polled(left, answers, s.devices.len() as int);
    lemma_lives_on(s, left, s.switched(answers));
}

proof fn keep_reevaluation_due(s: Sim)
    requires
        sound(s),
    ensures
        sound(s.reevaluation_due()),
        lives_on(s, s.reevaluation_due()),
{
    placed_same(s, s);
    let m = Sim { last_reevaluation: Some(s.now), ..s };
    placed_same(s, m);
    let kind = EventKind::SchedulerReevaluation {
        generation: s.generation,
        trigger: crate::scheduler::ReevaluationTrigger::EventTriggered,
    };
    keep_scheduled(m, s.now, kind);
    lemma_lives_on(s, m, m.scheduled(s.now, kind));
}

proof fn keep_reevaluation_pending(s: Sim)
    requires
        sound(s),
    ensures
        sound(s.reevaluation_pending()),
        lives_on(s, s.reevaluation_pending()),
{
    placed_same(s, s);
    if let Some(interval) = s.reevaluation_interval() {
        keep_scheduled(
            s,
            arith::sat_add(s.now, interval),
            EventKind::SchedulerReevaluation {
                generation: s.generation,
                trigger: crate::scheduler::ReevaluationTrigger::Periodic,
            },
        );
    }
}

proof fn keep_next_point(s: Sim, id: JobId, d: DeviceId, version: u64)
    requires
        sound(s),
    ensures
        sound(s.next_point(id, d, version)),
        lives_on(s, s.next_point(id, d, version)),
{
    placed_same(s, s);
    let model = crate::virtual_device::VirtualDeviceModel::of(s.devices[d.0 as int].preemption);
    if let Some(interval) = model.point_interval() {
        keep_scheduled(
            s,
            arith::sat_add(s.now, interval),
            EventKind::PreemptionPoint {
                device_id: d,
                job_id: id,
                expected_version: version,
            },
        );
    }
}

/// Handling an event keeps the state sound, whatever the scheduler answers.
pub proof fn law_events_keep_soundness(s: Sim, kind: EventKind, answers: Seq<Seq<Action>>)
    requires
        sound(s),
    ensures
        sound(s.handled(kind, answers)),
        lives_on(s, s.handled(kind, answers)),
{
    reveal(Sim::handled);
    placed_same(s, s);
    let first = sim::answer(answers, 0);
    match kind {
        EventKind::TaskArrival { job_id, .. } => {
            if s.arrives(job_id) {
                let m = Sim {
                    tally: sim::Tally { total: arith::sat_add(s.tally.total, 1), ..s.tally },
                    ..s
                };
                placed_same(s, m);
                keep_next_released(m, s.job(job_id)->0.task_id);
                let a = s.arriving(job_id);
                lemma_lives_on(s, m, a);
                law_actions_keep_soundness(a, first, None);
                let b = a.applied_all(first, None);
                lemma_lives_on(s, a, b);
                keep_reevaluation_due(b);
                lemma_lives_on(s, b, b.reevaluation_due());
            }
        },
        EventKind::JobComplete { job_id, device_id, .. } => {
            if s.device_of(job_id) == Some(device_id) {
                keep_completing(s, job_id, device_id);
                let a = s.completing(job_id, device_id);
                law_actions_keep_soundness(a, first, None);
                let b = a.applied_all(first, None);
                lemma_lives_on(s, a, b);
                keep_reevaluation_due(b);
                lemma_lives_on(s, b, b.reevaluation_due());
            }
        },
        EventKind::PreemptionPoint { device_id, job_id, expected_version } => {
            law_actions_keep_soundness(s, first, Some(device_id));
            let a = s.applied_all(first, Some(device_id));
            keep_next_point(a, job_id, device_id, expected_version);
            lemma_lives_on(s, a, a.next_point(job_id, device_id, expected_version));
        },
        EventKind::TransferComplete { job_id, device_id, .. } => {
            keep_transferred(s, job_id, device_id);
        },
        EventKind::EdgeTransferComplete { edge_id, .. } => {
            keep_edge_transferred(s, edge_id);
        },
        EventKind::BusArbitration { bus_id } => {
            keep_arbitrated(s, bus_id);
        },
        EventKind::DeadlineCheck { job_id, .. } => {
            if let Some(job) = s.job(job_id) {
                if job.missed_at(s.now) {
                    keep_missing(s, job_id);
                    let a = s.missing(job_id);
                    law_actions_keep_soundness(a, first, None);
                    lemma_lives_on(s, a, a.applied_all(first, None));
                }
            }
        },
        EventKind::BudgetOverrun { .. } => {
            keep_switched(s, answers);
        },
        EventKind::SchedulerReevaluation { .. } => {
            law_actions_keep_soundness(s, first, None);
            let a = s.applied_all(first, None);
            keep_reevaluation_pending(a);
            lemma_lives_on(s, a, a.reevaluation_pending());
        },
        EventKind::SimulationEnd => {},
    }
}

/// Every step keeps the state sound whatever the scheduler answers, every job
/// lives on, and the clock never goes back.
pub proof fn law_steps_keep_soundness(s: Sim, event: Event, t: Sim)
    requires
        sound(s),
        sim::steps(s, event, t),
    ensures
        sound(t),
        lives_on(s, t),
        s.now <= t.now,
        t.now == event.time,
{
    let answers = choose|answers: Seq<Seq<Action>>| t == #[trigger] s.processed_event(
        event,
        answers,
    );
    let at = Sim { now: event.time, events: s.events.remove(event), ..s };
    let counted = Sim { processed: arith::sat_add(at.processed, 1), ..at };
    came_up(s, event);
    law_events_keep_soundness(counted, event.kind, answers);
    lemma_lives_on(s, counted, counted.handled(event.kind, answers));
    crate::pace::law_runs_end(s, event, answers);
}

/// A run begins soundly.
pub proof fn law_beginning_keeps_soundness(s: Sim, policy: ReevaluationPolicy)
    requires
        sound(s),
    ensures
        sound(s.begun(policy)),
        lives_on(s, s.begun(policy)),
        s.begun(policy).now == s.now,
{
    let m = Sim {
        policy,
        generation: arith::sat_add(s.generation, 1),
        last_reevaluation: None,
        ..s
    };
    placed_same(s, m);
    keep_scheduled(m, s.end(), EventKind::SimulationEnd);
    let a = m.scheduled(s.end(), EventKind::SimulationEnd);
    lemma_lives_on(s, m, a);
    keep_reevaluation_pending(a);
    lemma_lives_on(s, a, a.reevaluation_pending());
}

/// Other tasks keep the state sound.
pub proof fn law_registration_keeps_soundness(s: Sim, tasks: Seq<Task>)
    requires
        sound(s),
    ensures
        sound(Sim { tasks, ..s }),
        lives_on(s, Sim { tasks, ..s }),
{
    placed_same(s, Sim { tasks, ..s });
}

/// A new simulation is sound.
pub proof fn law_initial_state_is_sound(
    duration: Nanos,
    devices: Seq<crate::device::DeviceConfig>,
    links: Seq<crate::device::InterconnectConfig>,
    buses: Seq<crate::device::SharedBusConfig>,
)
    requires
        devices.len() <= u32::MAX,
    ensures
        sound(sim::initial(duration, devices, links, buses)),
        recorded(sim::initial(duration, devices, links, buses)),
{
    let s = sim::initial(duration, devices, links, buses);
    assert forall|d: int, x: JobId| 0 <= d < devices.len() implies !#[trigger] holds(
        s.queues[d],
        x,
    ) by {
        device_manager::lemma_place_of(s.queues[d], x);
    }
    assert forall|e: Event| s.events.count(e) == 0 by {}
}

/// A whole run keeps the state sound whatever the scheduler answers: every job
/// lives on, those that have come to an end as they were, and the clock never
/// goes back.
pub proof fn law_runs_keep_soundness(first: Sim, events: Seq<Event>, states: Seq<Sim>, n: int)
    requires
        sound(first),
        sim::is_run(first, events, states),
        0 <= n < states.len(),
    ensures
        sound(states[n]),
        lives_on(first, states[n]),
        first.now <= states[n].now,
    decreases n,
{
    if n == 0 {
        placed_same(first, first);
    } else {
        law_runs_keep_soundness(first, events, states, n - 1);
        assert(sim::steps(states[n - 1], events[n - 1], states[n - 1 + 1]));
        law_steps_keep_soundness(states[n - 1], events[n - 1], states[n]);
        lemma_lives_on(first, states[n - 1], states[n]);
    }
}

/// In a sound state no device runs two jobs and no job runs on two devices.
pub proof fn law_one_job_per_device(s: Sim, d: int, e: int)
    requires
        sound(s),
        0 <= d < s.devices.len(),
        0 <= e < s.devices.len(),
        s.running[d] is Some,
        s.running[d] == s.running[e],
    ensures
        d == e,
{
    let id = s.running[d]->0;
    assert(s.running[e] == Some(id));
}

/// In a sound state a job that has come to an end runs nowhere and waits
/// nowhere.
pub proof fn law_ended_jobs_hold_nothing(s: Sim, id: JobId, d: int)
    requires
        sound(s),
        s.job(id) is Some,
        s.job(id)->0.state.terminal(),
        0 <= d < s.devices.len(),
    ensures
        s.running[d] != Some(id),
        !holds(s.queues[d], id),
{
    if s.running[d] == Some(id) {
        assert(s.job(id)->0.state is Running);
    }
    if holds(s.queues[d], id) {
        assert(is_queued(s.job(id)->0));
    }
}

/// The registration of a DAG keeps the state sound.
pub proof fn law_dag_registration_keeps_soundness(s: Sim, dag: crate::task::DagTask, t: Sim)
    requires
        sound(s),
        sim::registers_one(s, dag, t),
    ensures
        sound(t),
        lives_on(s, t),
{
    let state = crate::dag_tracker::registered(dag, s.tasks.len());
    let m = Sim { tasks: t.tasks, dags: s.dags.push(state), ..s };
    placed_same(s, m);
    let instance = DagInstanceId(s.dags.len() as u64);
    keep_nodes_released(m, state.ready(dag.nodes@.len() as int), instance);
    lemma_lives_on(s, m, t);
}

/// Whether every record of a completion or a miss belongs to a job that ended
/// that way, and no job has two of a kind.
pub open spec fn recorded(s: Sim) -> bool {
    &&& forall|i: int|
        0 <= i < s.tally.completions.len() ==> {
            let c = #[trigger] s.tally.completions[i];
            &&& s.job(c.job_id) matches Some(job) && job.state is Completed && job.task_id
                == c.task_id && job.release_time == c.release_time
            &&& c.completion_time <= s.now
        }
    &&& forall|i: int, j: int|
        0 <= i < j < s.tally.completions.len() ==> (#[trigger] s.tally.completions[i]).job_id != (
        #[trigger] s.tally.completions[j]).job_id
    &&& forall|i: int|
        0 <= i < s.tally.misses.len() ==> {
            let m = #[trigger] s.tally.misses[i];
            &&& s.job(m.job_id) matches Some(job) && job.state is DeadlineMissed && job.task_id
                == m.task_id && job.absolute_deadline < m.miss_time
            &&& m.miss_time <= s.now
        }
    &&& forall|i: int, j: int|
        0 <= i < j < s.tally.misses.len() ==> (#[trigger] s.tally.misses[i]).job_id != (
        #[trigger] s.tally.misses[j]).job_id
}

/// The numbers of the jobs that records are about, completions first.
pub open spec fn recorded_ids(s: Sim) -> Seq<int> {
    Seq::new(
        s.tally.completions.len() + s.tally.misses.len(),
        |i: int|
            if i < s.tally.completions.len() {
                s.tally.completions[i].job_id.0 as int
            } else {
                s.tally.misses[i - s.tally.completions.len()].job_id.0 as int
            },
    )
}

/// No job is recorded twice, so that there are at most as many records as
/// jobs.
pub proof fn law_jobs_are_recorded_once(s: Sim)
    requires
        recorded(s),
    ensures
        recorded_ids(s).no_duplicates(),
        s.tally.completions.len() + s.tally.misses.len() <= s.jobs.len(),
{
    let ids = recorded_ids(s);
    let n = s.tally.completions.len() as int;
    let all = vstd::set_lib::set_int_range(0, s.jobs.len() as int);
    assert forall|i: int, j: int| 0 <= i < j < ids.len() implies ids[i] != ids[j] by {
        if j < n {
            assert(s.tally.completions[i].job_id != s.tally.completions[j].job_id);
        } else if i >= n {
            assert(s.tally.misses[i - n].job_id != s.tally.misses[j - n].job_id);
        } else {
            let c = s.tally.completions[i];
            let m = s.tally.misses[j - n];
            assert(s.job(c.job_id) is Some && s.job(m.job_id) is Some);
            assert(c.job_id != m.job_id);
        }
    }
    assert forall|x: int| ids.to_set().contains(x) implies all.contains(x) by {
        let i = choose|i: int| 0 <= i < ids.len() && ids[i] == x;
        if i < n {
            assert(s.job(s.tally.completions[i].job_id) is Some);
        } else {
            assert(s.job(s.tally.misses[i - n].job_id) is Some);
        }
    }
    ids.unique_seq_to_set();
    vstd::set_lib::lemma_int_range(0, s.jobs.len() as int);
    vstd::set_lib::lemma_len_subset(ids.to_set(), all);
}

/// Records stay true while no more are added.
proof fn recorded_same(s: Sim, t: Sim)
    requires
        recorded(s),
        lives_on(s, t),
        t.tally.completions == s.tally.completions,
        t.tally.misses == s.tally.misses,
        s.now <= t.now,
    ensures
        recorded(t),
{
    assert forall|i: int| 0 <= i < t.tally.completions.len() implies ({
        let c = #[trigger] t.tally.completions[i];
        &&& t.job(c.job_id) matches Some(job) && job.state is Completed && job.task_id
            == c.task_id && job.release_time == c.release_time
        &&& c.completion_time <= t.now
    }) by {
        let c = s.tally.completions[i];
        assert(s.jobs[c.job_id.0 as int] is Some);
    }
    assert forall|i: int| 0 <= i < t.tally.misses.len() implies ({
        let m = #[trigger] t.tally.misses[i];
        &&& t.job(m.job_id) matches Some(job) && job.state is DeadlineMissed && job.task_id
            == m.task_id && job.absolute_deadline < m.miss_time
        &&& m.miss_time <= t.now
    }) by {
        let m = s.tally.misses[i];
        assert(s.jobs[m.job_id.0 as int] is Some);
    }
}

/// A completed job stays as it is while successors get its data.
proof fn completing_leaves_completed(s: Sim, id: JobId, d: DeviceId)
    requires
        sound(s),
        s.device_of(id) == Some(d),
    ensures
        s.completing(id, d).job(id) matches Some(job) && job.state is Completed && job.task_id
            == s.job(id)->0.task_id && job.release_time == s.job(id)->0.release_time,
{
    loosen_paused(s, id, d);
    let p = s.paused(id, d);
    let job = p.job(id)->0;
    let done = Job {
        executed_ns: match job.actual_exec_ns {
            Some(ns) => ns,
            None => job.executed_ns,
        },
        ..sim::moved(job, JobState::Completed)
    };
    let record = crate::metrics::CompletionRecord {
        job_id: id,
        task_id: job.task_id,
        release_time: job.release_time,
        completion_time: s.now,
    };
    let a = Sim {
        tally: sim::Tally {
            completed: arith::sat_add(s.tally.completed, 1),
            completions: s.tally.completions.push(record),
            ..s.tally
        },
        ..p.with_job(id, done)
    };
    assert(a.job(id) == Some(done));
    if let Some(pr) = done.dag_provenance {
        if pr.dag_instance_id.0 < a.dags.len() {
            let list = crate::dag_tracker::outgoing(
                a.dags[pr.dag_instance_id.0 as int].bytes,
                pr.node,
            );
            sim::lemma_handed_on_all(a, id, d, pr, list);
        }
    }
}

/// A job whose deadline was missed is left that way.
proof fn missing_leaves_missed(s: Sim, id: JobId)
    requires
        sound(s),
        s.job(id) is Some,
        !s.job(id)->0.state.terminal(),
    ensures
        s.missing(id).job(id) matches Some(job) && job.state is DeadlineMissed && job.task_id
            == s.job(id)->0.task_id && job.absolute_deadline == s.job(id)->0.absolute_deadline,
{
    assert(s.jobs[id.0 as int] is Some);
    assert forall|u: Sim, list: Seq<ScheduledEvent>|
        (#[trigger] u.scheduled_all(list)).jobs == u.jobs by {
        sim::lemma_scheduled_all(u, list);
    }
}

proof fn records_arrival(s: Sim, id: JobId, first: Seq<Action>)
    requires
        sound(s),
        recorded(s),
        s.arrives(id),
    ensures
        recorded(s.arriving(id).applied_all(first, None).reevaluation_due()),
{
    let m = Sim {
        tally: sim::Tally { total: arith::sat_add(s.tally.total, 1), ..s.tally },
        ..s
    };
    placed_same(s, m);
    keep_next_released(m, s.job(id)->0.task_id);
    let a = s.arriving(id);
    lemma_lives_on(s, m, a);
    recorded_same(s, a);
    records_rest(a, first);
}

/// The scheduler's answer to an event adds no records.
proof fn records_rest(a: Sim, first: Seq<Action>)
    requires
        sound(a),
        recorded(a),
    ensures
        recorded(a.applied_all(first, None)),
        recorded(a.applied_all(first, None).reevaluation_due()),
{
    law_actions_keep_soundness(a, first, None);
    crate::pace::law_actions_keep_frame(a, first, None);
    let b = a.applied_all(first, None);
    recorded_same(a, b);
    keep_reevaluation_due(b);
    recorded_same(b, b.reevaluation_due());
}

proof fn records_completion(s: Sim, id: JobId, d: DeviceId, first: Seq<Action>)
    requires
        sound(s),
        recorded(s),
        s.device_of(id) == Some(d),
    ensures
        recorded(s.completing(id, d).applied_all(first, None).reevaluation_due()),
{
    let m = s.completing(id, d);
    keep_completing(s, id, d);
    loosen_paused(s, id, d);
    completing_leaves_completed(s, id, d);
    crate::pace::law_completions_add_one_record(s, id, d);
    lemma_record_completion(s, m, id);
    records_rest(m, first);
}

proof fn records_miss(s: Sim, id: JobId, first: Seq<Action>)
    requires
        sound(s),
        recorded(s),
        s.job(id) is Some,
        s.job(id)->0.missed_at(s.now),
    ensures
        recorded(s.missing(id)),
        recorded(s.missing(id).applied_all(first, None)),
{
    let m = s.missing(id);
    keep_missing(s, id);
    missing_leaves_missed(s, id);
    crate::pace::law_misses_add_one_record(s, id);
    lemma_record_miss(s, m, id);
    records_rest(m, first);
}

/// Handling an event keeps the records true.
pub proof fn law_events_keep_records(s: Sim, kind: EventKind, answers: Seq<Seq<Action>>)
    requires
        sound(s),
        recorded(s),
    ensures
        recorded(s.handled(kind, answers)),
{
    let first = sim::answer(answers, 0);
    let t = s.handled(kind, answers);
    if kind is TaskArrival || kind is JobComplete || kind is DeadlineCheck {
        reveal(Sim::handled);
        match kind {
            EventKind::TaskArrival { job_id, .. } => {
                if s.arrives(job_id) {
                    records_arrival(s, job_id, first);
                }
            },
            EventKind::JobComplete { job_id, device_id, .. } => {
                if s.device_of(job_id) == Some(device_id) {
                    records_completion(s, job_id, device_id, first);
                }
            },
            EventKind::DeadlineCheck { job_id, .. } => {
                if s.job(job_id) is Some && s.job(job_id)->0.missed_at(s.now) {
                    records_miss(s, job_id, first);
                }
            },
            _ => {},
        }
    } else {
        law_events_keep_soundness(s, kind, answers);
        crate::pace::law_events_keep_frame(s, kind, answers);
        recorded_same(s, t);
    }
}

/// Every step keeps the records true: a job is recorded as completed or missed
/// only when it ends that way, and only once.
pub proof fn law_steps_keep_records(s: Sim, event: Event, t: Sim)
    requires
        sound(s),
        recorded(s),
        sim::steps(s, event, t),
    ensures
        recorded(t),
{
    let answers = choose|answers: Seq<Seq<Action>>| t == #[trigger] s.processed_event(
        event,
        answers,
    );
    let at = Sim { now: event.time, events: s.events.remove(event), ..s };
    let c = Sim { processed: arith::sat_add(at.processed, 1), ..at };
    came_up(s, event);
    recorded_same(s, at);
    recorded_same(s, c);
    law_events_keep_records(c, event.kind, answers);
}

/// A state is sound when its next event comes up.
proof fn came_up(s: Sim, event: Event)
    requires
        sound(s),
        s.is_next(event),
    ensures
        ({
            let at = Sim { now: event.time, events: s.events.remove(event), ..s };
            let c = Sim { processed: arith::sat_add(at.processed, 1), ..at };
            &&& sound(at)
            &&& sound(c)
            &&& lives_on(s, at)
            &&& lives_on(s, c)
            &&& s.now <= event.time
        }),
{
    let at = Sim { now: event.time, events: s.events.remove(event), ..s };
    let c = Sim { processed: arith::sat_add(at.processed, 1), ..at };
    placed_same(s, at);
    placed_same(s, c);
    assert(s.events.count(event) > 0);
    assert forall|e: Event| #[trigger] at.events.count(e) > 0 implies e.time >= at.now && e.seq
        < at.seq && at.events.count(e) == 1 by {
        assert(s.events.count(e) > 0);
        assert(!e.before(event));
    }
    assert forall|a: Event, b: Event|
        #[trigger] at.events.count(a) > 0 && #[trigger] at.events.count(b) > 0 && a.seq
            == b.seq implies a == b by {
        assert(s.events.count(a) > 0 && s.events.count(b) > 0);
    }
}

proof fn lemma_record_completion(s: Sim, t: Sim, id: JobId)
    requires
        recorded(s),
        lives_on(s, t),
        s.job(id) is Some,
        !s.job(id)->0.state.terminal(),
        t.now == s.now,
        t.tally.misses == s.tally.misses,
        t.job(id) matches Some(job) && job.state is Completed && job.task_id
            == s.job(id)->0.task_id && job.release_time == s.job(id)->0.release_time,
        t.tally.completions == s.tally.completions.push(
            crate::metrics::CompletionRecord {
                job_id: id,
                task_id: s.job(id)->0.task_id,
                release_time: s.job(id)->0.release_time,
                completion_time: s.now,
            },
        ),
    ensures
        recorded(t),
{
    let n = s.tally.completions.len() as int;
    let before = Sim { tally: sim::Tally { completions: s.tally.completions, ..t.tally }, ..t };
    recorded_same(s, before);
    assert forall|x: JobId| #[trigger] before.job(x) == t.job(x) by {}
    assert forall|i: int| 0 <= i < t.tally.completions.len() implies ({
        let c = #[trigger] t.tally.completions[i];
        &&& t.job(c.job_id) matches Some(job) && job.state is Completed && job.task_id
            == c.task_id && job.release_time == c.release_time
        &&& c.completion_time <= t.now
    }) by {
        if i < n {
            assert(before.tally.completions[i] == t.tally.completions[i]);
        }
    }
    assert forall|i: int, j: int| 0 <= i < j < t.tally.completions.len() implies (
    #[trigger] t.tally.completions[i]).job_id != (#[trigger] t.tally.completions[j]).job_id by {
        assert(t.tally.completions[i] == s.tally.completions[i]);
        if j < n {
            assert(t.tally.completions[j] == s.tally.completions[j]);
        } else {
            assert(s.job(s.tally.completions[i].job_id)->0.state is Completed);
        }
    }
    assert forall|i: int| 0 <= i < t.tally.misses.len() implies ({
        let m = #[trigger] t.tally.misses[i];
        &&& t.job(m.job_id) matches Some(job) && job.state is DeadlineMissed && job.task_id
            == m.task_id && job.absolute_deadline < m.miss_time
        &&& m.miss_time <= t.now
    }) by {
        assert(before.tally.misses[i] == t.tally.misses[i]);
    }
}

proof fn lemma_record_miss(s: Sim, t: Sim, id: JobId)
    requires
        recorded(s),
        lives_on(s, t),
        s.job(id) is Some,
        !s.job(id)->0.state.terminal(),
        s.job(id)->0.absolute_deadline < s.now,
        t.now == s.now,
        t.tally.completions == s.tally.completions,
        t.job(id) matches Some(job) && job.state is DeadlineMissed && job.task_id
            == s.job(id)->0.task_id && job.absolute_deadline == s.job(id)->0.absolute_deadline,
        t.tally.misses == s.tally.misses.push(
            crate::metrics::MissRecord {
                job_id: id,
                task_id: s.job(id)->0.task_id,
                miss_time: s.now,
            },
        ),
    ensures
        recorded(t),
{
    let n = s.tally.misses.len() as int;
    let before = Sim { tally: sim::Tally { misses: s.tally.misses, ..t.tally }, ..t };
    recorded_same(s, before);
    assert forall|x: JobId| #[trigger] before.job(x) == t.job(x) by {}
    assert forall|i: int| 0 <= i < t.tally.completions.len() implies ({
        let c = #[trigger] t.tally.completions[i];
        &&& t.job(c.job_id) matches Some(job) && job.state is Completed && job.task_id
            == c.task_id && job.release_time == c.release_time
        &&& c.completion_time <= t.now
    }) by {
        assert(before.tally.completions[i] == t.tally.completions[i]);
    }
    assert forall|i: int| 0 <= i < t.tally.misses.len() implies ({
        let m = #[trigger] t.tally.misses[i];
        &&& t.job(m.job_id) matches Some(job) && job.state is DeadlineMissed && job.task_id
            == m.task_id && job.absolute_deadline < m.miss_time
        &&& m.miss_time <= t.now
    }) by {
        if i < n {
            assert(before.tally.misses[i] == t.tally.misses[i]);
        }
    }
    assert forall|i: int, j: int| 0 <= i < j < t.tally.misses.len() implies (
    #[trigger] t.tally.misses[i]).job_id != (#[trigger] t.tally.misses[j]).job_id by {
        assert(t.tally.misses[i] == s.tally.misses[i]);
        if j < n {
            assert(t.tally.misses[j] == s.tally.misses[j]);
        } else {
            assert(s.job(s.tally.misses[i].job_id)->0.state is DeadlineMissed);
        }
    }
}

/// The beginning of a run keeps the records true.
pub proof fn law_beginning_keeps_records(s: Sim, policy: ReevaluationPolicy)
    requires
        sound(s),
        recorded(s),
    ensures
        recorded(s.begun(policy)),
{
    law_beginning_keeps_soundness(s, policy);
    recorded_same(s, s.begun(policy));
}

/// A whole run keeps the records true.
pub proof fn law_runs_keep_records(first: Sim, events: Seq<Event>, states: Seq<Sim>, n: int)
    requires
        sound(first),
        recorded(first),
        sim::is_run(first, events, states),
        0 <= n < states.len(),
    ensures
        recorded(states[n]),
    decreases n,
{
    if n > 0 {
        law_runs_keep_soundness(first, events, states, n - 1);
        law_runs_keep_records(first, events, states, n - 1);
        assert(sim::steps(states[n - 1], events[n - 1], states[n - 1 + 1]));
        law_steps_keep_records(states[n - 1], events[n - 1], states[n]);
    }
}

} // verus!

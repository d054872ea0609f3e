//! Orders on jobs and the most urgent waiting job under each.

use crate::ids::DeviceId;
use crate::job::Job;
use crate::scheduler::{Action, QueuedJobInfo, RunningJobInfo, SchedulerView};
use crate::select::{self, Key};
use crate::task::{CriticalityLevel, Task};
use vstd::prelude::*;

verus! {

/// Earliest deadline, then earliest release, then lowest id.
pub open spec fn deadline_key(deadline: u64, release: u64, id: u64) -> Key {
    Key { k0: deadline as i128, k1: release as i128, k2: id as i128, k3: 0, k4: 0, k5: 0 }
}

/// High criticality comes first.
pub open spec fn criticality_rank(level: CriticalityLevel) -> i128 {
    match level {
        CriticalityLevel::Hi => 0,
        CriticalityLevel::Lo => 1,
    }
}

/// Criticality, then deadline, priority, release and id.
pub open spec fn critical_key(
    level: CriticalityLevel,
    deadline: u64,
    priority: u32,
    release: u64,
    id: u64,
) -> Key {
    Key {
        k0: criticality_rank(level),
        k1: deadline as i128,
        k2: priority as i128,
        k3: release as i128,
        k4: id as i128,
        k5: 0,
    }
}

/// Criticality, then priority, release and id.
pub open spec fn priority_key(
    level: CriticalityLevel,
    priority: u32,
    release: u64,
    id: u64,
) -> Key {
    Key {
        k0: criticality_rank(level),
        k1: priority as i128,
        k2: release as i128,
        k3: id as i128,
        k4: 0,
        k5: 0,
    }
}

/// The critical key of an arriving job.
pub open spec fn arrival_critical(task: &Task, job: &Job) -> Key {
    critical_key(
        task.criticality,
        job.absolute_deadline,
        job.effective_priority,
        job.release_time,
        job.id.0,
    )
}

/// The critical key of a running job.
pub open spec fn running_critical(r: RunningJobInfo) -> Key {
    critical_key(r.criticality, r.absolute_deadline, r.priority, r.release_time, r.job_id.0)
}

/// The critical key of a waiting job.
pub open spec fn queued_critical(q: QueuedJobInfo) -> Key {
    critical_key(q.criticality, q.absolute_deadline, q.priority, q.release_time, q.job_id.0)
}

/// The deadline key of a waiting job.
pub open spec fn queued_deadline(q: QueuedJobInfo) -> Key {
    deadline_key(q.absolute_deadline, q.release_time, q.job_id.0)
}

/// The priority key of a waiting job.
pub open spec fn queued_priority(q: QueuedJobInfo) -> Key {
    priority_key(q.criticality, q.priority, q.release_time, q.job_id.0)
}

/// The priority key of a running job.
pub open spec fn running_priority(r: RunningJobInfo) -> Key {
    priority_key(r.criticality, r.priority, r.release_time, r.job_id.0)
}

/// Critical keys of a queue.
pub open spec fn critical_keys(queue: Seq<QueuedJobInfo>) -> Seq<Key> {
    Seq::new(queue.len(), |i: int| queued_critical(queue[i]))
}

/// Deadline keys of a queue.
pub open spec fn deadline_keys(queue: Seq<QueuedJobInfo>) -> Seq<Key> {
    Seq::new(queue.len(), |i: int| queued_deadline(queue[i]))
}

/// Priority keys of a queue.
pub open spec fn priority_keys(queue: Seq<QueuedJobInfo>) -> Seq<Key> {
    Seq::new(queue.len(), |i: int| queued_priority(queue[i]))
}

/// The waiting job that comes first by the critical key.
pub open spec fn best_critical(queue: Seq<QueuedJobInfo>) -> Option<QueuedJobInfo> {
    select::item_at(queue, select::least(critical_keys(queue)))
}

/// The waiting job that comes first by the deadline key.
pub open spec fn best_deadline(queue: Seq<QueuedJobInfo>) -> Option<QueuedJobInfo> {
    select::item_at(queue, select::least(deadline_keys(queue)))
}

/// The waiting job that comes first by the priority key.
pub open spec fn best_priority(queue: Seq<QueuedJobInfo>) -> Option<QueuedJobInfo> {
    select::item_at(queue, select::least(priority_keys(queue)))
}

/// Dispatches a waiting job, if there is one.
pub open spec fn dispatch_of(next: Option<QueuedJobInfo>, d: DeviceId) -> Seq<Action> {
    match next {
        Some(job) => seq![Action::Dispatch { job_id: job.job_id, device_id: d }],
        None => seq![Action::NoOp],
    }
}

/// What to do with an arriving job on its device: dispatch it where the device
/// is idle, else preempt or wait.
pub open spec fn place(
    job: &Job,
    d: DeviceId,
    running: Option<RunningJobInfo>,
    preempts: bool,
) -> Seq<Action> {
    match running {
        None => seq![Action::Dispatch { job_id: job.id, device_id: d }],
        Some(r) => if preempts {
            seq![Action::Preempt { victim: r.job_id, by: job.id, device_id: d }]
        } else {
            seq![Action::Enqueue { job_id: job.id, device_id: d }]
        },
    }
}

/// Ranks a criticality level.
pub fn rank_of(level: CriticalityLevel) -> (rank: i128)
    ensures
        rank == criticality_rank(level),
{
    match level {
        CriticalityLevel::Hi => 0,
        CriticalityLevel::Lo => 1,
    }
}

/// Builds a critical key.
pub fn make_critical_key(
    level: CriticalityLevel,
    deadline: u64,
    priority: u32,
    release: u64,
    id: u64,
) -> (key: Key)
    ensures
        key == critical_key(level, deadline, priority, release, id),
{
    Key {
        k0: rank_of(level),
        k1: deadline as i128,
        k2: priority as i128,
        k3: release as i128,
        k4: id as i128,
        k5: 0,
    }
}

/// Builds a priority key.
pub fn make_priority_key(level: CriticalityLevel, priority: u32, release: u64, id: u64) -> (key:
    Key)
    ensures
        key == priority_key(level, priority, release, id),
{
    Key {
        k0: rank_of(level),
        k1: priority as i128,
        k2: release as i128,
        k3: id as i128,
        k4: 0,
        k5: 0,
    }
}

/// Ranks an arriving job by the critical key.
pub fn arrival_rank(task: &Task, job: &Job) -> (key: Key)
    ensures
        key == arrival_critical(task, job),
{
    make_critical_key(
        task.criticality,
        job.absolute_deadline,
        job.effective_priority,
        job.release_time,
        job.id.0,
    )
}

/// Ranks a running job by the critical key.
pub fn running_rank(r: &RunningJobInfo) -> (key: Key)
    ensures
        key == running_critical(*r),
{
    make_critical_key(r.criticality, r.absolute_deadline, r.priority, r.release_time, r.job_id.0)
}

/// Ranks a waiting job by the critical key.
pub fn queued_rank(q: &QueuedJobInfo) -> (key: Key)
    ensures
        key == queued_critical(*q),
{
    make_critical_key(q.criticality, q.absolute_deadline, q.priority, q.release_time, q.job_id.0)
}

/// Finds the waiting job of a device that comes first by the critical key.
pub fn best_by_criticality(d: DeviceId, view: &SchedulerView<'_>) -> (next: Option<QueuedJobInfo>)
    ensures
        next == best_critical(view.waiting_at(d)),
{
    let queue: &Vec<QueuedJobInfo> = match view.queue_for_device(d) {
        Some(q) => q,
        None => {
            return None;
        },
    };
    let mut keys: Vec<Key> = Vec::new();
    let mut i: usize = 0;
    while i < queue.len()
        invariant
            i <= queue@.len(),
            keys@.len() == i,
            forall|j: int| 0 <= j < i ==> #[trigger] keys@[j] == queued_critical(queue@[j]),
        decreases queue@.len() - i,
    {
        keys.push(queued_rank(&queue[i]));
        i = i + 1;
    }
    proof {
        assert(keys@ =~= critical_keys(queue@));
    }
    match select::find_least(&keys) {
        Some(at) => Some(queue[at]),
        None => None,
    }
}

/// Finds the waiting job of a device that comes first by the deadline key.
pub fn best_by_deadline(d: DeviceId, view: &SchedulerView<'_>) -> (next: Option<QueuedJobInfo>)
    ensures
        next == best_deadline(view.waiting_at(d)),
{
    let queue: &Vec<QueuedJobInfo> = match view.queue_for_device(d) {
        Some(q) => q,
        None => {
            return None;
        },
    };
    let mut keys: Vec<Key> = Vec::new();
    let mut i: usize = 0;
    while i < queue.len()
        invariant
            i <= queue@.len(),
            keys@.len() == i,
            forall|j: int| 0 <= j < i ==> #[trigger] keys@[j] == queued_deadline(queue@[j]),
        decreases queue@.len() - i,
    {
        keys.push(
            Key {
                k0: queue[i].absolute_deadline as i128,
                k1: queue[i].release_time as i128,
                k2: queue[i].job_id.0 as i128,
                k3: 0,
                k4: 0,
                k5: 0,
            },
        );
        i = i + 1;
    }
    proof {
        assert(keys@ =~= deadline_keys(queue@));
    }
    match select::find_least(&keys) {
        Some(at) => Some(queue[at]),
        None => None,
    }
}

/// Finds the waiting job of a device that comes first by the priority key.
pub fn best_by_priority(d: DeviceId, view: &SchedulerView<'_>) -> (next: Option<QueuedJobInfo>)
    ensures
        next == best_priority(view.waiting_at(d)),
{
    let queue: &Vec<QueuedJobInfo> = match view.queue_for_device(d) {
        Some(q) => q,
        None => {
            return None;
        },
    };
    let mut keys: Vec<Key> = Vec::new();
    let mut i: usize = 0;
    while i < queue.len()
        invariant
            i <= queue@.len(),
            keys@.len() == i,
            forall|j: int| 0 <= j < i ==> #[trigger] keys@[j] == queued_priority(queue@[j]),
        decreases queue@.len() - i,
    {
        keys.push(
            make_priority_key(
                queue[i].criticality,
                queue[i].priority,
                queue[i].release_time,
                queue[i].job_id.0,
            ),
        );
        i = i + 1;
    }
    proof {
        assert(keys@ =~= priority_keys(queue@));
    }
    match select::find_least(&keys) {
        Some(at) => Some(queue[at]),
        None => None,
    }
}

/// Dispatches a waiting job, if there is one.
pub fn dispatch_next(next: Option<QueuedJobInfo>, d: DeviceId) -> (actions: Vec<Action>)
    ensures
        actions@ == dispatch_of(next, d),
{
    match next {
        Some(job) => vec![Action::Dispatch { job_id: job.job_id, device_id: d }],
        None => vec![Action::NoOp],
    }
}

/// Dispatches an arriving job where its device is idle; else it preempts or
/// waits.
pub fn place_job(
    job: &Job,
    d: DeviceId,
    running: Option<RunningJobInfo>,
    preempts: bool,
) -> (actions: Vec<Action>)
    ensures
        actions@ == place(job, d, running, preempts),
{
    match running {
        None => vec![Action::Dispatch { job_id: job.id, device_id: d }],
        Some(r) => if preempts {
            vec![Action::Preempt { victim: r.job_id, by: job.id, device_id: d }]
        } else {
            vec![Action::Enqueue { job_id: job.id, device_id: d }]
        },
    }
}

/// The waiting job that is chosen by deadline waits in the queue, and no job
/// of the queue has an earlier deadline.
pub proof fn law_best_deadline_is_earliest(queue: Seq<QueuedJobInfo>)
    ensures
        best_deadline(queue) is None <==> queue.len() == 0,
        best_deadline(queue) matches Some(b) ==> {
            &&& queue.contains(b)
            &&& forall|i: int|
                0 <= i < queue.len() ==> b.absolute_deadline <= (
                #[trigger] queue[i]).absolute_deadline
        },
{
    let keys = deadline_keys(queue);
    select::law_least_is_first_minimum(keys);
    if let Some(at) = select::least(keys) {
        assert(queue[at] == best_deadline(queue)->0);
        assert forall|i: int| 0 <= i < queue.len() implies best_deadline(
            queue,
        )->0.absolute_deadline <= (#[trigger] queue[i]).absolute_deadline by {
            assert(!keys[i].less(keys[at]));
        }
    }
}

/// A waiting high-criticality job is chosen before any low-criticality one by
/// the critical key and by the priority key.
pub proof fn law_high_criticality_first(queue: Seq<QueuedJobInfo>, i: int)
    requires
        0 <= i < queue.len(),
        queue[i].criticality is Hi,
    ensures
        best_critical(queue) matches Some(b) && b.criticality is Hi,
        best_priority(queue) matches Some(b) && b.criticality is Hi,
{
    let ck = critical_keys(queue);
    select::law_least_is_first_minimum(ck);
    let at = select::least(ck)->0;
    assert(!ck[i].less(ck[at]));
    let pk = priority_keys(queue);
    select::law_least_is_first_minimum(pk);
    let bt = select::least(pk)->0;
    assert(!pk[i].less(pk[bt]));
}

} // verus!

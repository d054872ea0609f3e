//! Device state manager.
//!
//! Tracks the running job and the ready queue of every device and builds the
//! view that schedulers see.

use crate::arith;
use crate::device::DeviceConfig;
use crate::ids::{DeviceId, JobId};
use crate::job::Job;
use crate::scheduler::{QueuedJobInfo, RunningJobInfo, SchedulerView};
use crate::task::{CriticalityLevel, DeviceType, Task};
use crate::time::Nanos;
use vstd::prelude::*;

verus! {

/// A waiting job with the priority it was enqueued at.
#[derive(Debug, Clone, Copy, PartialEq, Eq, Structural)]
pub struct QueueEntry {
    pub priority: u32,
    pub job_id: JobId,
}

/// Running jobs and ready queues of all devices. Devices are addressed by
/// their place in the list.
pub struct DeviceManager {
    devices: Vec<DeviceConfig>,
    running: Vec<Option<JobId>>,
    ready_queues: Vec<Vec<QueueEntry>>,
    view_running: Vec<(DeviceId, Option<RunningJobInfo>)>,
    view_queues: Vec<(DeviceId, Vec<QueuedJobInfo>)>,
    queue_dirty: Vec<bool>,
}

/// The place for a new entry of a priority: behind the last entry of the same
/// or a higher priority.
pub open spec fn slot(queue: Seq<QueueEntry>, priority: u32) -> int
    decreases queue.len(),
{
    if queue.len() == 0 {
        0
    } else if queue.last().priority <= priority {
        queue.len() as int
    } else {
        slot(queue.drop_last(), priority)
    }
}

/// A queue with a new entry.
pub open spec fn enqueued(queue: Seq<QueueEntry>, entry: QueueEntry) -> Seq<QueueEntry> {
    queue.insert(slot(queue, entry.priority), entry)
}

/// The place of the first entry of a job.
pub open spec fn place_of(queue: Seq<QueueEntry>, job: JobId) -> Option<int>
    decreases queue.len(),
{
    if queue.len() == 0 {
        None
    } else {
        match place_of(queue.drop_last(), job) {
            Some(i) => Some(i),
            None => if queue.last().job_id == job {
                Some(queue.len() - 1)
            } else {
                None
            },
        }
    }
}

/// A queue without the first entry of a job.
pub open spec fn without(queue: Seq<QueueEntry>, job: JobId) -> Seq<QueueEntry> {
    match place_of(queue, job) {
        Some(i) => queue.remove(i),
        None => queue,
    }
}

/// Whether a queue is ordered by priority.
pub open spec fn by_priority(queue: Seq<QueueEntry>) -> bool {
    forall|i: int, j: int|
        0 <= i < j < queue.len() ==> (#[trigger] queue[i]).priority <= (
        #[trigger] queue[j]).priority
}

/// A job by its id.
pub open spec fn job_at(jobs: Seq<Option<Job>>, id: JobId) -> Option<Job> {
    if id.0 < jobs.len() {
        jobs[id.0 as int]
    } else {
        None
    }
}

/// Whether the task of a job is known, where the job exists.
pub open spec fn task_known(jobs: Seq<Option<Job>>, tasks: Seq<Task>, id: JobId) -> bool {
    job_at(jobs, id) matches Some(job) ==> job.task_id.0 < tasks.len()
}

/// What a scheduler sees of a running job.
pub open spec fn running_info(
    jobs: Seq<Option<Job>>,
    tasks: Seq<Task>,
    now: Nanos,
    id: JobId,
) -> Option<RunningJobInfo> {
    match job_at(jobs, id) {
        Some(job) => Some(
            RunningJobInfo {
                job_id: job.id,
                task_id: job.task_id,
                priority: job.effective_priority,
                release_time: job.release_time,
                absolute_deadline: job.absolute_deadline,
                criticality: tasks[job.task_id.0 as int].criticality,
                elapsed_ns: match job.exec_start_time {
                    Some(start) => arith::sat_sub(now, start),
                    None => 0,
                },
            },
        ),
        None => None,
    }
}

/// What a scheduler sees of the waiting jobs that exist.
pub open spec fn queued_infos(
    jobs: Seq<Option<Job>>,
    tasks: Seq<Task>,
    queue: Seq<QueueEntry>,
) -> Seq<QueuedJobInfo>
    decreases queue.len(),
{
    if queue.len() == 0 {
        Seq::empty()
    } else {
        let rest = queued_infos(jobs, tasks, queue.drop_last());
        match job_at(jobs, queue.last().job_id) {
            Some(job) => rest.push(
                QueuedJobInfo {
                    job_id: job.id,
                    task_id: job.task_id,
                    priority: job.effective_priority,
                    release_time: job.release_time,
                    absolute_deadline: job.absolute_deadline,
                    criticality: tasks[job.task_id.0 as int].criticality,
                },
            ),
            None => rest,
        }
    }
}

/// The jobs that leave a queue when its head is taken again and again.
pub open spec fn drained(queue: Seq<QueueEntry>) -> Seq<JobId>
    decreases queue.len(),
{
    if queue.len() == 0 {
        Seq::empty()
    } else {
        seq![queue[0].job_id] + drained(queue.remove(0))
    }
}

/// The jobs that a shown queue lists.
pub open spec fn listed_jobs(shown: Seq<QueuedJobInfo>) -> Seq<JobId> {
    Seq::new(shown.len(), |k: int| shown[k].job_id)
}

/// Whether every job of a queue exists under its own id.
pub open spec fn all_present(jobs: Seq<Option<Job>>, queue: Seq<QueueEntry>) -> bool {
    forall|k: int|
        0 <= k < queue.len() ==> (job_at(jobs, (#[trigger] queue[k]).job_id) matches Some(job)
            && job.id == queue[k].job_id)
}

/// A queue is emptied from its front.
pub proof fn law_queues_drain_in_order(queue: Seq<QueueEntry>)
    ensures
        drained(queue).len() == queue.len(),
        forall|k: int| 0 <= k < queue.len() ==> #[trigger] drained(queue)[k] == queue[k].job_id,
    decreases queue.len(),
{
    if queue.len() > 0 {
        let rest = queue.remove(0);
        law_queues_drain_in_order(rest);
        assert forall|k: int| 0 <= k < queue.len() implies #[trigger] drained(queue)[k]
            == queue[k].job_id by {
            if k > 0 {
                assert(drained(queue)[k] == drained(rest)[k - 1]);
                assert(rest[k - 1] == queue[k]);
            }
        }
    }
}

/// A queue whose jobs exist is shown in the order in which they leave it.
pub proof fn law_queues_are_listed_in_order(
    jobs: Seq<Option<Job>>,
    tasks: Seq<Task>,
    queue: Seq<QueueEntry>,
)
    requires
        all_present(jobs, queue),
    ensures
        listed_jobs(queued_infos(jobs, tasks, queue)) == drained(queue),
    decreases queue.len(),
{
    law_queues_drain_in_order(queue);
    if queue.len() > 0 {
        let rest = queue.drop_last();
        assert(all_present(jobs, rest)) by {
            assert forall|k: int| 0 <= k < rest.len() implies (job_at(
                jobs,
                (#[trigger] rest[k]).job_id,
            ) matches Some(job) && job.id == rest[k].job_id) by {
                assert(rest[k] == queue[k]);
            }
        }
        law_queues_are_listed_in_order(jobs, tasks, rest);
        law_queues_drain_in_order(rest);
        let shown = queued_infos(jobs, tasks, queue);
        let before = queued_infos(jobs, tasks, rest);
        let n = queue.len() - 1;
        assert(job_at(jobs, queue[n].job_id) is Some);
        assert(listed_jobs(before).len() == n);
        assert forall|k: int| 0 <= k < queue.len() implies listed_jobs(shown)[k] == drained(
            queue,
        )[k] by {
            if k < n {
                assert(listed_jobs(before)[k] == drained(rest)[k]);
                assert(rest[k] == queue[k]);
                assert(shown[k] == before[k]);
            }
        }
        assert(listed_jobs(shown) =~= drained(queue));
    } else {
        assert(listed_jobs(queued_infos(jobs, tasks, queue)) =~= drained(queue));
    }
}

/// A running job that exists is shown with the time for which it has been
/// executing, which is none before it has started.
pub proof fn law_running_jobs_are_shown(
    jobs: Seq<Option<Job>>,
    tasks: Seq<Task>,
    now: Nanos,
    id: JobId,
)
    requires
        job_at(jobs, id) is Some,
    ensures
        running_info(jobs, tasks, now, id) matches Some(info) && info.job_id == job_at(
            jobs,
            id,
        )->0.id && info.task_id == job_at(jobs, id)->0.task_id && info.elapsed_ns == match job_at(
            jobs,
            id,
        )->0.exec_start_time {
            Some(start) => arith::sat_sub(now, start),
            None => 0,
        },
{
}

/// A slot is a place in the queue, with nothing of lower priority before it
/// and nothing else behind it.
proof fn lemma_slot(queue: Seq<QueueEntry>, priority: u32)
    requires
        by_priority(queue),
    ensures
        0 <= slot(queue, priority) <= queue.len(),
        forall|i: int|
            0 <= i < slot(queue, priority) ==> (#[trigger] queue[i]).priority <= priority,
        forall|i: int|
            slot(queue, priority) <= i < queue.len() ==> (#[trigger] queue[i]).priority > priority,
    decreases queue.len(),
{
    if queue.len() > 0 {
        let rest = queue.drop_last();
        assert(by_priority(rest)) by {
            assert forall|i: int, j: int| 0 <= i < j < rest.len() implies (
            #[trigger] rest[i]).priority <= (#[trigger] rest[j]).priority by {
                assert(rest[i] == queue[i] && rest[j] == queue[j]);
            }
        }
        if queue.last().priority > priority {
            lemma_slot(rest, priority);
            assert forall|i: int| 0 <= i < slot(queue, priority) implies (
            #[trigger] queue[i]).priority <= priority by {
                assert(queue[i] == rest[i]);
            }
            assert forall|i: int| slot(queue, priority) <= i < queue.len() implies (
            #[trigger] queue[i]).priority > priority by {
                if i < rest.len() {
                    assert(queue[i] == rest[i]);
                }
            }
        }
    }
}

/// Enqueueing keeps the order by priority and puts the new entry behind those
/// of the same priority: jobs of one priority leave in the order they came.
pub proof fn law_enqueue_keeps_priority_order(queue: Seq<QueueEntry>, entry: QueueEntry)
    requires
        by_priority(queue),
    ensures
        by_priority(enqueued(queue, entry)),
        exists|k: int|
            0 <= k <= queue.len() && enqueued(queue, entry) == #[trigger] queue.insert(k, entry)
                && (forall|i: int| 0 <= i < k ==> (#[trigger] queue[i]).priority <= entry.priority)
                && (forall|i: int|
                k <= i < queue.len() ==> (#[trigger] queue[i]).priority > entry.priority),
{
    lemma_slot(queue, entry.priority);
    let k = slot(queue, entry.priority);
    let q = enqueued(queue, entry);
    assert(q == queue.insert(k, entry));
    assert forall|i: int, j: int| 0 <= i < j < q.len() implies (#[trigger] q[i]).priority <= (
    #[trigger] q[j]).priority by {
        let a = if i < k {
            queue[i].priority
        } else if i == k {
            entry.priority
        } else {
            queue[i - 1].priority
        };
        let b = if j < k {
            queue[j].priority
        } else if j == k {
            entry.priority
        } else {
            queue[j - 1].priority
        };
        assert(q[i].priority == a);
        assert(q[j].priority == b);
    }
}

/// Removing an entry keeps the order by priority.
pub proof fn law_removal_keeps_priority_order(queue: Seq<QueueEntry>, i: int)
    requires
        by_priority(queue),
        0 <= i < queue.len(),
    ensures
        by_priority(queue.remove(i)),
{
    let q = queue.remove(i);
    assert forall|a: int, b: int| 0 <= a < b < q.len() implies (#[trigger] q[a]).priority <= (
    #[trigger] q[b]).priority by {
        let x = if a < i {
            a
        } else {
            a + 1
        };
        let y = if b < i {
            b
        } else {
            b + 1
        };
        assert(q[a] == queue[x] && q[b] == queue[y]);
    }
}

/// The place of a job is its first entry.
pub proof fn lemma_place_of(queue: Seq<QueueEntry>, job: JobId)
    ensures
        match place_of(queue, job) {
            Some(i) => 0 <= i < queue.len() && queue[i].job_id == job && (forall|j: int|
                0 <= j < i ==> (#[trigger] queue[j]).job_id != job),
            None => forall|j: int| 0 <= j < queue.len() ==> (#[trigger] queue[j]).job_id != job,
        },
    decreases queue.len(),
{
    if queue.len() > 0 {
        let rest = queue.drop_last();
        lemma_place_of(rest, job);
        assert forall|j: int| 0 <= j < rest.len() implies rest[j] == #[trigger] queue[j] by {}
        if place_of(rest, job) is None {
            assert forall|j: int| 0 <= j < queue.len() - 1 implies (
            #[trigger] queue[j]).job_id != job by {
                assert(rest[j].job_id != job);
            }
        } else {
            let i = place_of(rest, job)->0;
            assert(rest[i] == queue[i]);
            assert forall|j: int| 0 <= j < i implies (#[trigger] queue[j]).job_id != job by {
                assert(rest[j].job_id != job);
            }
        }
    }
}

/// Finds the first entry of a job.
fn find_entry(queue: &Vec<QueueEntry>, job: JobId) -> (place: Option<usize>)
    ensures
        match place {
            Some(i) => i < queue@.len() && place_of(queue@, job) == Some(i as int),
            None => place_of(queue@, job) is None,
        },
{
    let mut i: usize = 0;
    while i < queue.len()
        invariant
            i <= queue@.len(),
            forall|j: int| 0 <= j < i ==> (#[trigger] queue@[j]).job_id != job,
        decreases queue@.len() - i,
    {
        if queue[i].job_id == job {
            proof {
                lemma_place_of(queue@, job);
                let p = place_of(queue@, job);
                assert(queue@[i as int].job_id == job);
            }
            return Some(i);
        }
        i = i + 1;
    }
    proof {
        lemma_place_of(queue@, job);
    }
    None
}

impl DeviceManager {
    /// The devices.
    pub closed spec fn device_list(&self) -> Seq<DeviceConfig> {
        self.devices@
    }

    /// The job running on each device.
    pub closed spec fn running_ids(&self) -> Seq<Option<JobId>> {
        self.running@
    }

    /// The ready queue of each device.
    pub closed spec fn queues(&self) -> Seq<Seq<QueueEntry>> {
        Seq::new(self.ready_queues@.len(), |i: int| self.ready_queues@[i]@)
    }

    /// Whether each queue has changed since it was last shown.
    pub closed spec fn dirty(&self) -> Seq<bool> {
        self.queue_dirty@
    }

    /// What was last shown of running jobs.
    pub closed spec fn shown_running(&self) -> Seq<(DeviceId, Option<RunningJobInfo>)> {
        self.view_running@
    }

    /// What was last shown of ready queues.
    pub closed spec fn shown_queues(&self) -> Seq<(DeviceId, Vec<QueuedJobInfo>)> {
        self.view_queues@
    }

    /// One entry per device everywhere, and queues ordered by priority.
    pub open spec fn wf(&self) -> bool {
        let n = self.device_list().len();
        &&& self.running_ids().len() == n
        &&& self.queues().len() == n
        &&& self.dirty().len() == n
        &&& self.shown_running().len() == n
        &&& self.shown_queues().len() == n
        &&& forall|i: int| 0 <= i < n ==> by_priority(#[trigger] self.queues()[i])
        &&& forall|i: int|
            0 <= i < n ==> (#[trigger] self.shown_running()[i]).0 == self.device_list()[i].id
        &&& forall|i: int|
            0 <= i < n ==> (#[trigger] self.shown_queues()[i]).0 == self.device_list()[i].id
    }

    /// Whether every queue that has not changed since it was last shown is
    /// listed as its jobs leave it.
    pub open spec fn lists_queues(&self) -> bool {
        forall|i: int|
            0 <= i < self.device_list().len() && !(#[trigger] self.dirty()[i]) ==> listed_jobs(
                self.shown_queues()[i].1@,
            ) == drained(self.queues()[i])
    }

    /// Whether nothing but the running job of device `d` differs.
    pub open spec fn same_but_running(&self, other: &DeviceManager) -> bool {
        &&& self.device_list() == other.device_list()
        &&& self.queues() == other.queues()
        &&& self.dirty() == other.dirty()
        &&& self.shown_running() == other.shown_running()
        &&& self.shown_queues() == other.shown_queues()
    }

    /// Whether nothing but queues and their marks differs.
    pub open spec fn same_but_queues(&self, other: &DeviceManager) -> bool {
        &&& self.device_list() == other.device_list()
        &&& self.running_ids() == other.running_ids()
        &&& self.shown_running() == other.shown_running()
        &&& self.shown_queues() == other.shown_queues()
    }

    /// Idle devices with empty queues.
    pub fn new(devices: Vec<DeviceConfig>) -> (m: Self)
        ensures
            m.wf(),
            m.lists_queues(),
            m.device_list() == devices@,
            forall|i: int| 0 <= i < devices@.len() ==> (#[trigger] m.running_ids()[i]) is None,
            forall|i: int| 0 <= i < devices@.len() ==> (#[trigger] m.queues()[i]).len() == 0,
            forall|i: int| 0 <= i < devices@.len() ==> #[trigger] m.dirty()[i],
            forall|i: int|
                0 <= i < devices@.len() ==> (#[trigger] m.shown_running()[i]).1 is None,
            forall|i: int|
                0 <= i < devices@.len() ==> (#[trigger] m.shown_queues()[i]).1@.len() == 0,
    {
        let n: usize = devices.len();
        let mut running: Vec<Option<JobId>> = Vec::new();
        let mut ready_queues: Vec<Vec<QueueEntry>> = Vec::new();
        let mut view_running: Vec<(DeviceId, Option<RunningJobInfo>)> = Vec::new();
        let mut view_queues: Vec<(DeviceId, Vec<QueuedJobInfo>)> = Vec::new();
        let mut queue_dirty: Vec<bool> = Vec::new();
        let mut i: usize = 0;
        while i < n
            invariant
                i <= n == devices@.len(),
                running@.len() == i,
                ready_queues@.len() == i,
                view_running@.len() == i,
                view_queues@.len() == i,
                queue_dirty@.len() == i,
                forall|j: int| 0 <= j < i ==> (#[trigger] running@[j]) is None,
                forall|j: int| 0 <= j < i ==> (#[trigger] ready_queues@[j])@.len() == 0,
                forall|j: int|
                    0 <= j < i ==> (#[trigger] view_running@[j]).0 == devices@[j].id
                        && view_running@[j].1 is None,
                forall|j: int|
                    0 <= j < i ==> (#[trigger] view_queues@[j]).0 == devices@[j].id
                        && view_queues@[j].1@.len() == 0,
                forall|j: int| 0 <= j < i ==> #[trigger] queue_dirty@[j],
            decreases n - i,
        {
            let id: DeviceId = devices[i].id;
            running.push(None);
            ready_queues.push(Vec::new());
            view_running.push((id, None));
            view_queues.push((id, Vec::new()));
            queue_dirty.push(true);
            i = i + 1;
        }
        DeviceManager { devices, running, ready_queues, view_running, view_queues, queue_dirty }
    }

    /// Looks up a device.
    pub fn device(&self, id: DeviceId) -> (device: &DeviceConfig)
        requires
            id.0 < self.device_list().len(),
        ensures
            *device == self.device_list()[id.0 as int],
    {
        &self.devices[id.0 as usize]
    }

    /// Lists the devices.
    pub fn devices(&self) -> (devices: &[DeviceConfig])
        ensures
            devices@ == self.device_list(),
    {
        self.devices.as_slice()
    }

    /// Finds the first device of a type.
    pub fn device_for_type(&self, dt: DeviceType) -> (device: Option<&DeviceConfig>)
        ensures
            match device {
                Some(d) => exists|i: int|
                    0 <= i < self.device_list().len() && *d == #[trigger] self.device_list()[i]
                        && d.device_type == dt && (forall|j: int|
                        0 <= j < i ==> (#[trigger] self.device_list()[j]).device_type != dt),
                None => forall|j: int|
                    0 <= j < self.device_list().len() ==> (
                    #[trigger] self.device_list()[j]).device_type != dt,
            },
    {
        let mut i: usize = 0;
        while i < self.devices.len()
            invariant
                i <= self.devices@.len(),
                forall|j: int| 0 <= j < i ==> (#[trigger] self.devices@[j]).device_type != dt,
            decreases self.devices@.len() - i,
        {
            if self.devices[i].device_type == dt {
                assert(self.device_list()[i as int] == self.devices@[i as int]);
                return Some(&self.devices[i]);
            }
            i = i + 1;
        }
        None
    }

    /// Tells the job running on a device.
    pub fn running_job(&self, device_id: DeviceId) -> (job: Option<JobId>)
        requires
            self.wf(),
            device_id.0 < self.device_list().len(),
        ensures
            job == self.running_ids()[device_id.0 as int],
    {
        self.running[device_id.0 as usize]
    }

    /// Sets the job running on a device.
    pub fn set_running(&mut self, device_id: DeviceId, job_id: JobId)
        requires
            old(self).wf(),
            device_id.0 < old(self).device_list().len(),
        ensures
            final(self).wf(),
            old(self).lists_queues() ==> final(self).lists_queues(),
            final(self).same_but_running(old(self)),
            final(self).running_ids() == old(self).running_ids().update(
                device_id.0 as int,
                Some(job_id),
            ),
    {
        self.running.set(device_id.0 as usize, Some(job_id));
        proof {
            assert(self.queues() =~= old(self).queues());
        }
    }

    /// Marks a device idle.
    pub fn clear_running(&mut self, device_id: DeviceId)
        requires
            old(self).wf(),
            device_id.0 < old(self).device_list().len(),
        ensures
            final(self).wf(),
            old(self).lists_queues() ==> final(self).lists_queues(),
            final(self).same_but_running(old(self)),
            final(self).running_ids() == old(self).running_ids().update(device_id.0 as int, None),
    {
        self.running.set(device_id.0 as usize, None);
        proof {
            assert(self.queues() =~= old(self).queues());
        }
    }

    /// Inserts a job into a device's ready queue.
    pub fn enqueue(&mut self, device_id: DeviceId, job_id: JobId, priority: u32)
        requires
            old(self).wf(),
            device_id.0 < old(self).device_list().len(),
        ensures
            final(self).wf(),
            old(self).lists_queues() ==> final(self).lists_queues(),
            final(self).same_but_queues(old(self)),
            final(self).queues() == old(self).queues().update(
                device_id.0 as int,
                enqueued(
                    old(self).queues()[device_id.0 as int],
                    QueueEntry { priority, job_id },
                ),
            ),
            final(self).dirty() == old(self).dirty().update(device_id.0 as int, true),
    {
        let idx: usize = device_id.0 as usize;
        let ghost before = self.queues()[idx as int];
        let ghost entry = QueueEntry { priority, job_id };
        let mut at: usize = self.ready_queues[idx].len();
        proof {
            assert(before.take(before.len() as int) =~= before);
            assert(by_priority(before));
        }
        while at > 0 && self.ready_queues[idx][at - 1].priority > priority
            invariant
                idx < self.ready_queues@.len(),
                before == self.ready_queues@[idx as int]@,
                at <= before.len(),
                slot(before, priority) == slot(before.take(at as int), priority),
            decreases at,
        {
            proof {
                assert(before.take(at as int).drop_last() =~= before.take(at as int - 1));
            }
            at = at - 1;
        }
        proof {
            lemma_slot(before, priority);
            assert(at == slot(before, priority)) by {
                if at > 0 {
                    assert(before.take(at as int).last() == before[at as int - 1]);
                }
            }
            law_enqueue_keeps_priority_order(before, entry);
        }
        self.ready_queues[idx].insert(at, QueueEntry { priority, job_id });
        self.queue_dirty.set(idx, true);
        proof {
            assert(self.queues() =~= old(self).queues().update(idx as int, enqueued(before, entry)));
        }
    }

    /// Removes and returns the highest-priority job.
    pub fn dequeue(&mut self, device_id: DeviceId) -> (job: Option<JobId>)
        requires
            old(self).wf(),
            device_id.0 < old(self).device_list().len(),
        ensures
            final(self).wf(),
            old(self).lists_queues() ==> final(self).lists_queues(),
            final(self).same_but_queues(old(self)),
            ({
                let queue = old(self).queues()[device_id.0 as int];
                if queue.len() == 0 {
                    &&& job is None
                    &&& final(self).queues() == old(self).queues()
                    &&& final(self).dirty() == old(self).dirty()
                } else {
                    &&& job == Some(queue[0].job_id)
                    &&& final(self).queues() == old(self).queues().update(
                        device_id.0 as int,
                        queue.remove(0),
                    )
                    &&& final(self).dirty() == old(self).dirty().update(device_id.0 as int, true)
                }
            }),
    {
        let idx: usize = device_id.0 as usize;
        let ghost before = self.queues()[idx as int];
        if self.ready_queues[idx].len() == 0 {
            return None;
        }
        proof {
            law_removal_keeps_priority_order(before, 0);
        }
        let first: QueueEntry = self.ready_queues[idx].remove(0);
        self.queue_dirty.set(idx, true);
        proof {
            assert(self.queues() =~= old(self).queues().update(idx as int, before.remove(0)));
        }
        Some(first.job_id)
    }

    /// Removes a specific job from a device's ready queue.
    pub fn remove_from_queue(&mut self, device_id: DeviceId, job_id: JobId) -> (found: bool)
        requires
            old(self).wf(),
            device_id.0 < old(self).device_list().len(),
        ensures
            final(self).wf(),
            old(self).lists_queues() ==> final(self).lists_queues(),
            final(self).same_but_queues(old(self)),
            found == (place_of(old(self).queues()[device_id.0 as int], job_id) is Some),
            final(self).queues() == old(self).queues().update(
                device_id.0 as int,
                without(old(self).queues()[device_id.0 as int], job_id),
            ),
            final(self).dirty() == if found {
                old(self).dirty().update(device_id.0 as int, true)
            } else {
                old(self).dirty()
            },
    {
        let idx: usize = device_id.0 as usize;
        let ghost before = self.queues()[idx as int];
        match find_entry(&self.ready_queues[idx], job_id) {
            Some(at) => {
                proof {
                    law_removal_keeps_priority_order(before, at as int);
                }
                self.ready_queues[idx].remove(at);
                self.queue_dirty.set(idx, true);
                proof {
                    assert(self.queues() =~= old(self).queues().update(
                        idx as int,
                        without(before, job_id),
                    ));
                }
                true
            },
            None => {
                proof {
                    assert(self.queues() =~= old(self).queues().update(idx as int, before));
                }
                false
            },
        }
    }

    /// Tells whether a job waits in the queue of a device.
    pub fn is_queued(&self, device_id: DeviceId, job_id: JobId) -> (yes: bool)
        requires
            self.wf(),
            device_id.0 < self.device_list().len(),
        ensures
            yes == (place_of(self.queues()[device_id.0 as int], job_id) is Some),
    {
        find_entry(&self.ready_queues[device_id.0 as usize], job_id).is_some()
    }

    /// Removes a job from all device queues.
    pub fn remove_job_from_all_queues(&mut self, job_id: JobId)
        requires
            old(self).wf(),
        ensures
            final(self).wf(),
            old(self).lists_queues() ==> final(self).lists_queues(),
            final(self).same_but_queues(old(self)),
            forall|i: int|
                0 <= i < old(self).device_list().len() ==> #[trigger] final(self).queues()[i]
                    == without(old(self).queues()[i], job_id),
            forall|i: int|
                0 <= i < old(self).device_list().len() ==> #[trigger] final(self).dirty()[i] == (
                old(self).dirty()[i] || place_of(old(self).queues()[i], job_id) is Some),
    {
        let n: usize = self.devices.len();
        let mut i: usize = 0;
        while i < n
            invariant
                i <= n,
                n == old(self).device_list().len(),
                self.wf(),
                self.same_but_queues(old(self)),
                forall|j: int|
                    0 <= j < n ==> #[trigger] self.queues()[j] == if j < i {
                        without(old(self).queues()[j], job_id)
                    } else {
                        old(self).queues()[j]
                    },
                forall|j: int|
                    0 <= j < n ==> #[trigger] self.dirty()[j] == (old(self).dirty()[j] || (j < i
                        && place_of(old(self).queues()[j], job_id) is Some)),
            decreases n - i,
        {
            let ghost before = *self;
            match find_entry(&self.ready_queues[i], job_id) {
                Some(at) => {
                    proof {
                        assert(self.queues()[i as int] == old(self).queues()[i as int]);
                        law_removal_keeps_priority_order(self.queues()[i as int], at as int);
                    }
                    self.ready_queues[i].remove(at);
                    self.queue_dirty.set(i, true);
                    proof {
                        assert(self.queues() =~= before.queues().update(
                            i as int,
                            without(before.queues()[i as int], job_id),
                        ));
                    }
                },
                None => {
                    assert(self.queues()[i as int] == old(self).queues()[i as int]);
                },
            }
            i = i + 1;
        }
    }

    /// Shows the current state to schedulers. Running jobs are always shown
    /// anew; queues only where they have changed.
    pub fn rebuild_view_data(&mut self, now: Nanos, jobs: &[Option<Job>], tasks: &[Task])
        requires
            old(self).wf(),
            forall|i: int|
                0 <= i < old(self).device_list().len() ==> ((
                #[trigger] old(self).running_ids()[i]) matches Some(id) ==> task_known(
                    jobs@,
                    tasks@,
                    id,
                )),
            forall|i: int, k: int|
                0 <= i < old(self).device_list().len() && 0 <= k < old(self).queues()[i].len()
                    ==> task_known(jobs@, tasks@, (#[trigger] old(self).queues()[i][k]).job_id),
        ensures
            final(self).wf(),
            old(self).lists_queues() && (forall|i: int|
                0 <= i < old(self).device_list().len() ==> all_present(
                    jobs@,
                    #[trigger] old(self).queues()[i],
                )) ==> final(self).lists_queues(),
            final(self).device_list() == old(self).device_list(),
            final(self).running_ids() == old(self).running_ids(),
            final(self).queues() == old(self).queues(),
            forall|i: int|
                0 <= i < old(self).device_list().len() ==> !(#[trigger] final(self).dirty()[i]),
            forall|i: int|
                0 <= i < old(self).device_list().len() ==> (
                #[trigger] final(self).shown_running()[i]).1 == match old(self).running_ids()[i] {
                    Some(id) => running_info(jobs@, tasks@, now, id),
                    None => None,
                },
            forall|i: int|
                0 <= i < old(self).device_list().len() ==> (
                #[trigger] final(self).shown_queues()[i]).1@ == if old(self).dirty()[i] {
                    queued_infos(jobs@, tasks@, old(self).queues()[i])
                } else {
                    old(self).shown_queues()[i].1@
                },
    {
        let n: usize = self.devices.len();
        let mut i: usize = 0;
        while i < n
            invariant
                i <= n,
                n == old(self).device_list().len(),
                old(self).wf(),
                self.wf(),
                self.device_list() == old(self).device_list(),
                self.running_ids() == old(self).running_ids(),
                self.queues() == old(self).queues(),
                forall|j: int|
                    0 <= j < n ==> ((#[trigger] old(self).running_ids()[j]) matches Some(id)
                        ==> task_known(jobs@, tasks@, id)),
                forall|j: int, k: int|
                    0 <= j < n && 0 <= k < old(self).queues()[j].len() ==> task_known(
                        jobs@,
                        tasks@,
                        (#[trigger] old(self).queues()[j][k]).job_id,
                    ),
                forall|j: int| 0 <= j < i ==> !(#[trigger] self.dirty()[j]),
                forall|j: int| i <= j < n ==> #[trigger] self.dirty()[j] == old(self).dirty()[j],
                forall|j: int|
                    0 <= j < i ==> (#[trigger] self.shown_running()[j]).1 == match old(
                        self,
                    ).running_ids()[j] {
                        Some(id) => running_info(jobs@, tasks@, now, id),
                        None => None,
                    },
                forall|j: int|
                    0 <= j < i ==> (#[trigger] self.shown_queues()[j]).1@ == if old(
                        self,
                    ).dirty()[j] {
                        queued_infos(jobs@, tasks@, old(self).queues()[j])
                    } else {
                        old(self).shown_queues()[j].1@
                    },
                forall|j: int|
                    i <= j < n ==> #[trigger] self.shown_queues()[j] == old(
                        self,
                    ).shown_queues()[j],
            decreases n - i,
        {
            let ghost before = *self;
            let id: DeviceId = self.devices[i].id;
            assert(old(self).running_ids()[i as int] == self.running@[i as int]);
            let info: Option<RunningJobInfo> = match self.running[i] {
                Some(job_id) => show_running(jobs, tasks, now, job_id),
                None => None,
            };
            self.view_running.set(i, (id, info));
            if self.queue_dirty[i] {
                self.queue_dirty.set(i, false);
                proof {
                    assert(self.ready_queues@[i as int]@ == old(self).queues()[i as int]);
                }
                let shown: Vec<QueuedJobInfo> = show_queue(jobs, tasks, &self.ready_queues[i]);
                self.view_queues.set(i, (id, shown));
            }
            proof {
                assert(self.queues() =~= before.queues());
            }
            i = i + 1;
        }
        proof {
            if old(self).lists_queues() && (forall|j: int|
                0 <= j < old(self).device_list().len() ==> all_present(
                    jobs@,
                    #[trigger] old(self).queues()[j],
                )) {
                assert forall|j: int|
                    0 <= j < self.device_list().len() && !(
                    #[trigger] self.dirty()[j]) implies listed_jobs(self.shown_queues()[j].1@)
                    == drained(self.queues()[j]) by {
                    if old(self).dirty()[j] {
                        assert(all_present(jobs@, old(self).queues()[j]));
                        law_queues_are_listed_in_order(jobs@, tasks@, old(self).queues()[j]);
                    }
                }
            }
        }
    }

    /// The view for schedulers, borrowing what was last shown.
    pub fn scheduler_view(&self, now: Nanos, criticality: CriticalityLevel) -> (view: SchedulerView<
        '_,
    >)
        ensures
            view.now == now,
            view.criticality_level == criticality,
            view.devices@ == self.device_list(),
            view.running_jobs@ == self.shown_running(),
            view.ready_queues@ == self.shown_queues(),
    {
        SchedulerView {
            now,
            devices: self.devices.as_slice(),
            running_jobs: self.view_running.as_slice(),
            ready_queues: self.view_queues.as_slice(),
            criticality_level: criticality,
        }
    }
}

/// Shows a running job.
fn show_running(jobs: &[Option<Job>], tasks: &[Task], now: Nanos, id: JobId) -> (info: Option<
    RunningJobInfo,
>)
    requires
        task_known(jobs@, tasks@, id),
    ensures
        info == running_info(jobs@, tasks@, now, id),
{
    if id.0 >= jobs.len() as u64 {
        return None;
    }
    match &jobs[id.0 as usize] {
        Some(job) => {
            let elapsed_ns: Nanos = match job.exec_start_time {
                Some(start) => now.saturating_sub(start),
                None => 0,
            };
            Some(
                RunningJobInfo {
                    job_id: job.id,
                    task_id: job.task_id,
                    priority: job.effective_priority,
                    release_time: job.release_time,
                    absolute_deadline: job.absolute_deadline,
                    criticality: tasks[job.task_id.0 as usize].criticality,
                    elapsed_ns,
                },
            )
        },
        None => None,
    }
}

/// Shows a queue.
fn show_queue(jobs: &[Option<Job>], tasks: &[Task], queue: &Vec<QueueEntry>) -> (shown: Vec<
    QueuedJobInfo,
>)
    requires
        forall|k: int|
            0 <= k < queue@.len() ==> task_known(jobs@, tasks@, (#[trigger] queue@[k]).job_id),
    ensures
        shown@ == queued_infos(jobs@, tasks@, queue@),
{
    let mut shown: Vec<QueuedJobInfo> = Vec::new();
    let mut i: usize = 0;
    while i < queue.len()
        invariant
            i <= queue@.len(),
            forall|k: int|
                0 <= k < queue@.len() ==> task_known(jobs@, tasks@, (#[trigger] queue@[k]).job_id),
            shown@ == queued_infos(jobs@, tasks@, queue@.take(i as int)),
        decreases queue@.len() - i,
    {
        proof {
            assert(queue@.take(i as int + 1).drop_last() =~= queue@.take(i as int));
        }
        let id: JobId = queue[i].job_id;
        if id.0 < jobs.len() as u64 {
            if let Some(job) = &jobs[id.0 as usize] {
                shown.push(
                    QueuedJobInfo {
                        job_id: job.id,
                        task_id: job.task_id,
                        priority: job.effective_priority,
                        release_time: job.release_time,
                        absolute_deadline: job.absolute_deadline,
                        criticality: tasks[job.task_id.0 as usize].criticality,
                    },
                );
            }
        }
        i = i + 1;
    }
    proof {
        assert(queue@.take(i as int) =~= queue@);
    }
    shown
}

/// A job that is enqueued on a device with an empty queue is the next one to
/// leave it.
pub proof fn law_single_entry_leaves_first(entry: QueueEntry)
    ensures
        enqueued(Seq::empty(), entry).len() == 1,
        enqueued(Seq::empty(), entry)[0] == entry,
        enqueued(Seq::empty(), entry).remove(0) =~= Seq::empty(),
{
}

/// Removing a job right after it was enqueued restores a queue that did not
/// hold it.
pub proof fn law_removal_undoes_enqueue(queue: Seq<QueueEntry>, entry: QueueEntry)
    requires
        by_priority(queue),
        place_of(queue, entry.job_id) is None,
    ensures
        without(enqueued(queue, entry), entry.job_id) == queue,
{
    lemma_slot(queue, entry.priority);
    lemma_place_of(queue, entry.job_id);
    let k = slot(queue, entry.priority);
    let q = enqueued(queue, entry);
    lemma_place_of(q, entry.job_id);
    assert(q[k] == entry);
    let i = place_of(q, entry.job_id)->0;
    if i != k {
        if i < k {
            assert(q[i] == queue[i]);
        } else {
            assert(q[i] == queue[i - 1]);
        }
    }
    assert(q.remove(k) =~= queue);
}

/// Whether two jobs look the same to a scheduler while they wait.
pub open spec fn same_face(a: Job, b: Job) -> bool {
    &&& a.id == b.id
    &&& a.task_id == b.task_id
    &&& a.effective_priority == b.effective_priority
    &&& a.release_time == b.release_time
    &&& a.absolute_deadline == b.absolute_deadline
}

/// Whether the jobs of a queue look the same in two states.
pub open spec fn same_faces(
    queue: Seq<QueueEntry>,
    jobs: Seq<Option<Job>>,
    tasks: Seq<Task>,
    later_jobs: Seq<Option<Job>>,
    later_tasks: Seq<Task>,
) -> bool {
    forall|k: int|
        0 <= k < queue.len() ==> {
            let id = (#[trigger] queue[k]).job_id;
            match (job_at(jobs, id), job_at(later_jobs, id)) {
                (Some(a), Some(b)) => same_face(a, b)
                    && tasks[a.task_id.0 as int].criticality
                    == later_tasks[b.task_id.0 as int].criticality,
                (None, None) => true,
                _ => false,
            }
        }
}

/// A queue whose jobs look the same is shown the same.
pub proof fn lemma_same_faces(
    queue: Seq<QueueEntry>,
    jobs: Seq<Option<Job>>,
    tasks: Seq<Task>,
    later_jobs: Seq<Option<Job>>,
    later_tasks: Seq<Task>,
)
    requires
        same_faces(queue, jobs, tasks, later_jobs, later_tasks),
    ensures
        queued_infos(jobs, tasks, queue) == queued_infos(later_jobs, later_tasks, queue),
    decreases queue.len(),
{
    if queue.len() > 0 {
        let rest = queue.drop_last();
        assert(same_faces(rest, jobs, tasks, later_jobs, later_tasks)) by {
            assert forall|k: int| 0 <= k < rest.len() implies (match (
                job_at(jobs, (#[trigger] rest[k]).job_id),
                job_at(later_jobs, rest[k].job_id),
            ) {
                (Some(a), Some(b)) => same_face(a, b)
                    && tasks[a.task_id.0 as int].criticality
                    == later_tasks[b.task_id.0 as int].criticality,
                (None, None) => true,
                _ => false,
            }) by {
                assert(rest[k] == queue[k]);
            }
        }
        lemma_same_faces(rest, jobs, tasks, later_jobs, later_tasks);
        assert(queue[queue.len() - 1] == queue.last());
    }
}

/// What is left in a queue was there before.
pub proof fn lemma_without(queue: Seq<QueueEntry>, job: JobId)
    ensures
        forall|k: int|
            0 <= k < without(queue, job).len() ==> queue.contains(
                #[trigger] without(queue, job)[k],
            ),
{
    lemma_place_of(queue, job);
    let left = without(queue, job);
    assert forall|k: int| 0 <= k < left.len() implies queue.contains(#[trigger] left[k]) by {
        match place_of(queue, job) {
            Some(i) => {
                let o = if k < i {
                    k
                } else {
                    k + 1
                };
                assert(left[k] == queue[o]);
            },
            None => {
                assert(left[k] == queue[k]);
            },
        }
    }
}

/// What is in a queue with a new entry was there before or is the entry.
pub proof fn lemma_enqueued(queue: Seq<QueueEntry>, entry: QueueEntry)
    requires
        by_priority(queue),
    ensures
        forall|k: int|
            0 <= k < enqueued(queue, entry).len() ==> queue.contains(
                #[trigger] enqueued(queue, entry)[k],
            ) || enqueued(queue, entry)[k] == entry,
{
    lemma_slot(queue, entry.priority);
    let at = slot(queue, entry.priority);
    let all = enqueued(queue, entry);
    assert forall|k: int| 0 <= k < all.len() implies queue.contains(#[trigger] all[k]) || all[k]
        == entry by {
        if k < at {
            assert(all[k] == queue[k]);
        } else if k > at {
            assert(all[k] == queue[k - 1]);
        }
    }
}

} // verus!

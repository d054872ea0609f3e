//! Gang scheduling: one task holds the devices at a time.

use crate::ids::{DeviceId, JobId, TaskId};
use crate::job::Job;
use crate::scheduler::{
    Action, QueuedJobInfo, ReevaluationPolicy, ReevaluationTrigger, RunningJobInfo, Scheduler,
    SchedulerView, Sight,
};
use crate::schedulers::{fixed_priority, global_edf, placement, tables};
use crate::select::{self, Key};
use crate::task::{CriticalityLevel, Task};
use vstd::prelude::*;

verus! {

/// Gang scheduler baseline: one active task is the current gang; other tasks
/// are not mixed in while the gang still has runnable work.
#[derive(Debug, Clone, Copy)]
pub struct GangScheduler {
    /// The task whose jobs form the current gang.
    pub active_task: Option<TaskId>,
}

/// Whether a job of a task runs.
pub open spec fn task_runs(list: Seq<RunningJobInfo>, task: TaskId) -> bool {
    exists|i: int| 0 <= i < list.len() && (#[trigger] list[i]).task_id == task
}

/// Whether a job of a task waits.
pub open spec fn task_waits(list: Seq<QueuedJobInfo>, task: TaskId) -> bool {
    exists|i: int| 0 <= i < list.len() && (#[trigger] list[i]).task_id == task
}

/// Priority, deadline and task of running jobs.
pub open spec fn leader_keys(list: Seq<RunningJobInfo>) -> Seq<Key> {
    Seq::new(
        list.len(),
        |i: int|
            Key {
                k0: list[i].priority as i128,
                k1: list[i].absolute_deadline as i128,
                k2: list[i].task_id.0 as i128,
                k3: 0,
                k4: 0,
                k5: 0,
            },
    )
}

/// Priority, deadline, task and id of waiting jobs.
pub open spec fn follower_keys(list: Seq<QueuedJobInfo>) -> Seq<Key> {
    Seq::new(
        list.len(),
        |i: int|
            Key {
                k0: list[i].priority as i128,
                k1: list[i].absolute_deadline as i128,
                k2: list[i].task_id.0 as i128,
                k3: list[i].job_id.0 as i128,
                k4: 0,
                k5: 0,
            },
    )
}

/// The task to become active: that of the most urgent running job, else that
/// of the most urgent waiting job.
pub open spec fn next_active(running: Seq<RunningJobInfo>, waiting: Seq<QueuedJobInfo>) -> Option<
    TaskId,
> {
    match select::item_at(running, select::least(leader_keys(running))) {
        Some(r) => Some(r.task_id),
        None => match select::item_at(waiting, select::least(follower_keys(waiting))) {
            Some(q) => Some(q.task_id),
            None => None,
        },
    }
}

/// The active task as a view is seen: it stays while it has work.
pub open spec fn refreshed(active: Option<TaskId>, view: Sight) -> Option<TaskId> {
    let running = tables::running_list(view.running_jobs);
    let waiting = tables::waiting_list(view.ready_queues);
    match active {
        Some(t) if task_runs(running, t) || task_waits(waiting, t) => Some(t),
        _ => next_active(running, waiting),
    }
}

/// The running jobs of a task.
pub open spec fn running_of(list: Seq<RunningJobInfo>, task: TaskId) -> Seq<RunningJobInfo>
    decreases list.len(),
{
    if list.len() == 0 {
        Seq::empty()
    } else {
        let rest = running_of(list.drop_last(), task);
        if list.last().task_id == task {
            rest.push(list.last())
        } else {
            rest
        }
    }
}

/// The waiting jobs of a task.
pub open spec fn waiting_of(list: Seq<QueuedJobInfo>, task: TaskId) -> Seq<QueuedJobInfo>
    decreases list.len(),
{
    if list.len() == 0 {
        Seq::empty()
    } else {
        let rest = waiting_of(list.drop_last(), task);
        if list.last().task_id == task {
            rest.push(list.last())
        } else {
            rest
        }
    }
}

/// Priority, deadline and id of a running job.
pub open spec fn member_key(r: RunningJobInfo) -> Key {
    Key {
        k0: r.priority as i128,
        k1: r.absolute_deadline as i128,
        k2: r.job_id.0 as i128,
        k3: 0,
        k4: 0,
        k5: 0,
    }
}

/// Keys of running jobs.
pub open spec fn member_keys(list: Seq<RunningJobInfo>) -> Seq<Key> {
    Seq::new(list.len(), |i: int| member_key(list[i]))
}

/// The most urgent running job of a task.
pub open spec fn best_running(list: Seq<RunningJobInfo>, task: TaskId) -> Option<RunningJobInfo> {
    select::item_at(running_of(list, task), select::least(member_keys(running_of(list, task))))
}

/// Priority, deadline, release and id of waiting jobs.
pub open spec fn queue_keys(list: Seq<QueuedJobInfo>) -> Seq<Key> {
    Seq::new(
        list.len(),
        |i: int|
            Key {
                k0: list[i].priority as i128,
                k1: list[i].absolute_deadline as i128,
                k2: list[i].release_time as i128,
                k3: list[i].job_id.0 as i128,
                k4: 0,
                k5: 0,
            },
    )
}

/// The most urgent waiting job of a task in a queue.
pub open spec fn best_waiting(queue: Seq<QueuedJobInfo>, task: TaskId) -> Option<QueuedJobInfo> {
    select::item_at(waiting_of(queue, task), select::least(queue_keys(waiting_of(queue, task))))
}

/// Whether an arriving job is more urgent than a running one.
pub open spec fn outranks(job: &Job, r: RunningJobInfo) -> bool {
    job.effective_priority < r.priority || (job.effective_priority == r.priority
        && job.absolute_deadline < r.absolute_deadline)
}

/// Whether an arriving job has to leave the devices to the active gang.
pub open spec fn yields(job: &Job, active: TaskId, view: Sight) -> bool {
    let running = tables::running_list(view.running_jobs);
    &&& active != job.task_id
    &&& task_runs(running, active)
    &&& !(best_running(running, active) matches Some(r) && outranks(job, r))
}

/// The busy devices of a list that run another task.
pub open spec fn others_of(busy: Seq<(DeviceId, RunningJobInfo)>, task: TaskId) -> Seq<
    (DeviceId, RunningJobInfo),
>
    decreases busy.len(),
{
    if busy.len() == 0 {
        Seq::empty()
    } else {
        let rest = others_of(busy.drop_last(), task);
        if busy.last().1.task_id != task {
            rest.push(busy.last())
        } else {
            rest
        }
    }
}

/// Keys of the preemption targets.
pub open spec fn other_keys(list: Seq<(DeviceId, RunningJobInfo)>) -> Seq<Key> {
    Seq::new(list.len(), |i: int| member_key(list[i].1))
}

/// The least urgent running job of another task.
pub open spec fn victim(busy: Seq<(DeviceId, RunningJobInfo)>, task: TaskId) -> Option<
    (DeviceId, RunningJobInfo),
> {
    select::item_at(others_of(busy, task), select::greatest(other_keys(others_of(busy, task))))
}

/// Lets a job wait at the shortest queue.
pub open spec fn wait(job: &Job, ids: Seq<DeviceId>, view: Sight) -> Seq<Action> {
    match placement::shortest_queue(view, ids) {
        Some(d) => seq![Action::Enqueue { job_id: job.id, device_id: d }],
        None => seq![Action::NoOp],
    }
}

/// The active task that an arrival finds: the refreshed one, else the task of
/// the arriving job.
pub open spec fn found_active(
    active: Option<TaskId>,
    job: &Job,
    view: Sight,
) -> TaskId {
    match refreshed(active, view) {
        Some(t) => t,
        None => job.task_id,
    }
}

/// The active task after an arrival.
pub open spec fn active_after(
    active: Option<TaskId>,
    job: &Job,
    task: &Task,
    view: Sight,
) -> Option<TaskId> {
    if view.compatible_with(task).len() == 0 {
        refreshed(active, view)
    } else if yields(job, found_active(active, job, view), view) {
        Some(found_active(active, job, view))
    } else {
        Some(job.task_id)
    }
}

/// What an arriving job does.
pub open spec fn arrival(
    active: Option<TaskId>,
    job: &Job,
    task: &Task,
    view: Sight,
) -> Seq<Action> {
    let ids = view.compatible_with(task);
    if ids.len() == 0 {
        seq![Action::NoOp]
    } else if yields(job, found_active(active, job, view), view) {
        wait(job, ids, view)
    } else {
        match placement::idle_shortest(view, ids) {
            Some(d) => seq![Action::Dispatch { job_id: job.id, device_id: d }],
            None => match victim(global_edf::busy_of(view, ids), job.task_id) {
                Some((d, r)) if outranks(job, r) => seq![
                    Action::Preempt { victim: r.job_id, by: job.id, device_id: d },
                ],
                _ => wait(job, ids, view),
            },
        }
    }
}

/// What a device that became free does: it takes the most urgent waiting job
/// of the active task.
pub open spec fn free_device(
    active: Option<TaskId>,
    d: DeviceId,
    view: Sight,
) -> Seq<Action> {
    match refreshed(active, view) {
        Some(t) => match best_waiting(view.waiting_at(d), t) {
            Some(q) => seq![Action::Dispatch { job_id: q.job_id, device_id: d }],
            None => seq![Action::NoOp],
        },
        None => seq![Action::NoOp],
    }
}

/// What happens at a preemption point: a job of the active task takes over
/// from one of another task.
pub open spec fn point(
    active: Option<TaskId>,
    d: DeviceId,
    running: &Job,
    view: Sight,
) -> Seq<Action> {
    match refreshed(active, view) {
        Some(t) if running.task_id != t => match best_waiting(view.waiting_at(d), t) {
            Some(q) => seq![Action::Preempt { victim: running.id, by: q.job_id, device_id: d }],
            None => seq![Action::NoOp],
        },
        _ => seq![Action::NoOp],
    }
}

/// Tells whether a job of a task runs.
fn has_running_task(list: &Vec<RunningJobInfo>, task: TaskId) -> (yes: bool)
    ensures
        yes == task_runs(list@, task),
{
    let mut i: usize = 0;
    while i < list.len()
        invariant
            i <= list@.len(),
            forall|j: int| 0 <= j < i ==> (#[trigger] list@[j]).task_id != task,
        decreases list@.len() - i,
    {
        if list[i].task_id == task {
            assert(list@[i as int].task_id == task);
            return true;
        }
        i = i + 1;
    }
    false
}

/// Tells whether a job of a task waits.
fn has_queued_task(list: &Vec<QueuedJobInfo>, task: TaskId) -> (yes: bool)
    ensures
        yes == task_waits(list@, task),
{
    let mut i: usize = 0;
    while i < list.len()
        invariant
            i <= list@.len(),
            forall|j: int| 0 <= j < i ==> (#[trigger] list@[j]).task_id != task,
        decreases list@.len() - i,
    {
        if list[i].task_id == task {
            assert(list@[i as int].task_id == task);
            return true;
        }
        i = i + 1;
    }
    false
}

/// Chooses the task to become active.
fn select_next_active_task(running: &Vec<RunningJobInfo>, waiting: &Vec<QueuedJobInfo>) -> (task:
    Option<TaskId>)
    ensures
        task == next_active(running@, waiting@),
{
    let mut keys: Vec<Key> = Vec::new();
    let mut i: usize = 0;
    while i < running.len()
        invariant
            i <= running@.len(),
            keys@.len() == i,
            forall|j: int| 0 <= j < i ==> #[trigger] keys@[j] == leader_keys(running@)[j],
        decreases running@.len() - i,
    {
        keys.push(
            Key {
                k0: running[i].priority as i128,
                k1: running[i].absolute_deadline as i128,
                k2: running[i].task_id.0 as i128,
                k3: 0,
                k4: 0,
                k5: 0,
            },
        );
        i = i + 1;
    }
    proof {
        assert(keys@ =~= leader_keys(running@));
    }
    if let Some(at) = select::find_least(&keys) {
        return Some(running[at].task_id);
    }
    let mut more: Vec<Key> = Vec::new();
    let mut k: usize = 0;
    while k < waiting.len()
        invariant
            k <= waiting@.len(),
            more@.len() == k,
            forall|j: int| 0 <= j < k ==> #[trigger] more@[j] == follower_keys(waiting@)[j],
        decreases waiting@.len() - k,
    {
        more.push(
            Key {
                k0: waiting[k].priority as i128,
                k1: waiting[k].absolute_deadline as i128,
                k2: waiting[k].task_id.0 as i128,
                k3: waiting[k].job_id.0 as i128,
                k4: 0,
                k5: 0,
            },
        );
        k = k + 1;
    }
    proof {
        assert(more@ =~= follower_keys(waiting@));
    }
    match select::find_least(&more) {
        Some(at) => Some(waiting[at].task_id),
        None => None,
    }
}

/// Builds the key of a running job.
fn make_member_key(r: &RunningJobInfo) -> (key: Key)
    ensures
        key == member_key(*r),
{
    Key {
        k0: r.priority as i128,
        k1: r.absolute_deadline as i128,
        k2: r.job_id.0 as i128,
        k3: 0,
        k4: 0,
        k5: 0,
    }
}

/// Finds the most urgent running job of a task.
fn best_running_for_task(list: &Vec<RunningJobInfo>, task: TaskId) -> (best: Option<RunningJobInfo>)
    ensures
        best == best_running(list@, task),
{
    let mut members: Vec<RunningJobInfo> = Vec::new();
    let mut keys: Vec<Key> = Vec::new();
    let mut i: usize = 0;
    while i < list.len()
        invariant
            i <= list@.len(),
            members@ == running_of(list@.take(i as int), task),
            keys@.len() == members@.len(),
            forall|j: int| 0 <= j < keys@.len() ==> #[trigger] keys@[j] == member_key(members@[j]),
        decreases list@.len() - i,
    {
        proof {
            assert(list@.take(i as int + 1).drop_last() =~= list@.take(i as int));
        }
        if list[i].task_id == task {
            members.push(list[i]);
            keys.push(make_member_key(&list[i]));
        }
        i = i + 1;
    }
    proof {
        assert(list@.take(i as int) =~= list@);
        assert(keys@ =~= member_keys(members@));
    }
    match select::find_least(&keys) {
        Some(at) => Some(members[at]),
        None => None,
    }
}

/// Finds the most urgent waiting job of a task on a device.
fn best_job_for_task(d: DeviceId, task: TaskId, view: &SchedulerView<'_>) -> (best: Option<JobId>)
    ensures
        best == match best_waiting(view.waiting_at(d), task) {
            Some(q) => Some(q.job_id),
            None => None,
        },
{
    let queue: &Vec<QueuedJobInfo> = match view.queue_for_device(d) {
        Some(q) => q,
        None => {
            return None;
        },
    };
    let mut members: Vec<QueuedJobInfo> = Vec::new();
    let mut keys: Vec<Key> = Vec::new();
    let mut i: usize = 0;
    while i < queue.len()
        invariant
            i <= queue@.len(),
            members@ == waiting_of(queue@.take(i as int), task),
            keys@.len() == members@.len(),
            forall|j: int|
                0 <= j < keys@.len() ==> #[trigger] keys@[j] == queue_keys(members@)[j],
        decreases queue@.len() - i,
    {
        proof {
            assert(queue@.take(i as int + 1).drop_last() =~= queue@.take(i as int));
        }
        let q: QueuedJobInfo = queue[i];
        if q.task_id == task {
            members.push(q);
            keys.push(
                Key {
                    k0: q.priority as i128,
                    k1: q.absolute_deadline as i128,
                    k2: q.release_time as i128,
                    k3: q.job_id.0 as i128,
                    k4: 0,
                    k5: 0,
                },
            );
        }
        i = i + 1;
    }
    proof {
        assert(queue@.take(i as int) =~= queue@);
        assert(keys@ =~= queue_keys(members@));
    }
    match select::find_least(&keys) {
        Some(at) => Some(members[at].job_id),
        None => None,
    }
}

/// Tells whether an arriving job is more urgent than a running one.
fn is_more_urgent(job: &Job, r: &RunningJobInfo) -> (yes: bool)
    ensures
        yes == outranks(job, *r),
{
    job.effective_priority < r.priority || (job.effective_priority == r.priority
        && job.absolute_deadline < r.absolute_deadline)
}

/// Finds the least urgent running job of another task.
fn pick_victim(busy: &Vec<(DeviceId, RunningJobInfo)>, task: TaskId) -> (target: Option<
    (DeviceId, RunningJobInfo),
>)
    ensures
        target == victim(busy@, task),
{
    let mut others: Vec<(DeviceId, RunningJobInfo)> = Vec::new();
    let mut keys: Vec<Key> = Vec::new();
    let mut i: usize = 0;
    while i < busy.len()
        invariant
            i <= busy@.len(),
            others@ == others_of(busy@.take(i as int), task),
            keys@.len() == others@.len(),
            forall|j: int|
                0 <= j < keys@.len() ==> #[trigger] keys@[j] == member_key(others@[j].1),
        decreases busy@.len() - i,
    {
        proof {
            assert(busy@.take(i as int + 1).drop_last() =~= busy@.take(i as int));
        }
        if busy[i].1.task_id != task {
            others.push(busy[i]);
            keys.push(make_member_key(&busy[i].1));
        }
        i = i + 1;
    }
    proof {
        assert(busy@.take(i as int) =~= busy@);
        assert(keys@ =~= other_keys(others@));
    }
    match select::find_greatest(&keys) {
        Some(at) => Some(others[at]),
        None => None,
    }
}

/// Lets a job wait at the shortest queue.
fn enqueue_shortest(job: &Job, ids: &Vec<DeviceId>, view: &SchedulerView<'_>) -> (actions: Vec<
    Action,
>)
    ensures
        actions@ == wait(job, ids@, view@),
{
    match placement::pick_shortest_queue(view, ids) {
        Some(d) => vec![Action::Enqueue { job_id: job.id, device_id: d }],
        None => vec![Action::NoOp],
    }
}

impl GangScheduler {
    /// Keeps the active task while it has work, else chooses the next one.
    fn refresh_active_task(&mut self, view: &SchedulerView<'_>)
        ensures
            final(self).active_task == refreshed(old(self).active_task, view@),
    {
        let running: Vec<RunningJobInfo> = tables::list_running(view);
        let waiting: Vec<QueuedJobInfo> = tables::list_waiting(view);
        if let Some(t) = self.active_task {
            if has_running_task(&running, t) || has_queued_task(&waiting, t) {
                return;
            }
        }
        self.active_task = select_next_active_task(&running, &waiting);
    }

    /// Hands a free device to the active task.
    fn fill_device(&mut self, d: DeviceId, view: &SchedulerView<'_>) -> (actions: Vec<Action>)
        ensures
            actions@ == free_device(old(self).active_task, d, view@),
            final(self).active_task == refreshed(old(self).active_task, view@),
    {
        self.refresh_active_task(view);
        match self.active_task {
            Some(t) => match best_job_for_task(d, t, view) {
                Some(job_id) => vec![Action::Dispatch { job_id, device_id: d }],
                None => vec![Action::NoOp],
            },
            None => vec![Action::NoOp],
        }
    }
}

impl Default for GangScheduler {
    fn default() -> (s: Self)
        ensures
            s.active_task is None,
    {
        GangScheduler { active_task: None }
    }
}

impl Scheduler for GangScheduler {
    open spec fn alike(&self, other: &Self) -> bool {
        self.active_task == other.active_task
    }

    open spec fn wants(&self, policy: ReevaluationPolicy) -> bool {
        policy is Disabled
    }

    open spec fn answers_arrival(
        &self,
        job: &Job,
        task: &Task,
        view: Sight,
        actions: Seq<Action>,
        after: &Self,
    ) -> bool {
        &&& actions =~= arrival(self.active_task, job, task, view)
        &&& after.active_task == active_after(self.active_task, job, task, view)
    }

    open spec fn answers_completion(
        &self,
        job: &Job,
        device_id: DeviceId,
        view: Sight,
        actions: Seq<Action>,
        after: &Self,
    ) -> bool {
        &&& actions =~= free_device(self.active_task, device_id, view)
        &&& after.active_task == refreshed(self.active_task, view)
    }

    open spec fn answers_point(
        &self,
        device_id: DeviceId,
        running_job: &Job,
        view: Sight,
        actions: Seq<Action>,
        after: &Self,
    ) -> bool {
        &&& actions =~= point(self.active_task, device_id, running_job, view)
        &&& after.active_task == refreshed(self.active_task, view)
    }

    open spec fn answers_change(
        &self,
        new_level: CriticalityLevel,
        trigger_job: &Job,
        view: Sight,
        actions: Seq<Action>,
        after: &Self,
    ) -> bool {
        &&& actions =~= fixed_priority::criticality_change(new_level, view)
        &&& after.active_task == refreshed(self.active_task, view)
    }

    open spec fn answers_idle(
        &self,
        device_id: DeviceId,
        view: Sight,
        actions: Seq<Action>,
        after: &Self,
    ) -> bool {
        &&& actions =~= free_device(self.active_task, device_id, view)
        &&& after.active_task == refreshed(self.active_task, view)
    }

    open spec fn answers_reevaluation(
        &self,
        trigger: ReevaluationTrigger,
        view: Sight,
        actions: Seq<Action>,
        after: &Self,
    ) -> bool {
        actions =~= seq![Action::NoOp] && *after == *self
    }

    fn name(&self) -> (name: &str)
        ensures
            name@ == "Gang"@,
    {
        "Gang"
    }

    fn reevaluation_policy(&self) -> (policy: ReevaluationPolicy)
        ensures
            policy is Disabled,
    {
        ReevaluationPolicy::Disabled
    }

    fn on_job_arrival(&mut self, job: &Job, task: &Task, view: &SchedulerView<'_>) -> (actions: Vec<
        Action,
    >)
        ensures
            actions@ == arrival(old(self).active_task, job, task, view@),
            final(self).active_task == active_after(old(self).active_task, job, task, view@),
    {
        self.refresh_active_task(view);
        let ids: Vec<DeviceId> = view.compatible_devices(task);
        if ids.len() == 0 {
            return vec![Action::NoOp];
        }
        let active: TaskId = match self.active_task {
            Some(t) => t,
            None => job.task_id,
        };
        let running: Vec<RunningJobInfo> = tables::list_running(view);
        if active != job.task_id && has_running_task(&running, active) {
            let can_switch: bool = match best_running_for_task(&running, active) {
                Some(r) => is_more_urgent(job, &r),
                None => false,
            };
            if !can_switch {
                self.active_task = Some(active);
                return enqueue_shortest(job, &ids, view);
            }
        }
        self.active_task = Some(job.task_id);
        if let Some(d) = placement::pick_idle_shortest(view, &ids) {
            return vec![Action::Dispatch { job_id: job.id, device_id: d }];
        }
        let busy: Vec<(DeviceId, RunningJobInfo)> = global_edf::list_busy(view, &ids);
        if let Some((d, r)) = pick_victim(&busy, job.task_id) {
            if is_more_urgent(job, &r) {
                return vec![Action::Preempt { victim: r.job_id, by: job.id, device_id: d }];
            }
        }
        enqueue_shortest(job, &ids, view)
    }

    fn on_job_complete(
        &mut self,
        _job: &Job,
        device_id: DeviceId,
        view: &SchedulerView<'_>,
    ) -> (actions: Vec<Action>)
        ensures
            actions@ == free_device(old(self).active_task, device_id, view@),
            final(self).active_task == refreshed(old(self).active_task, view@),
    {
        self.fill_device(device_id, view)
    }

    fn on_preemption_point(
        &mut self,
        device_id: DeviceId,
        running_job: &Job,
        view: &SchedulerView<'_>,
    ) -> (actions: Vec<Action>)
        ensures
            actions@ == point(old(self).active_task, device_id, running_job, view@),
            final(self).active_task == refreshed(old(self).active_task, view@),
    {
        self.refresh_active_task(view);
        match self.active_task {
            Some(t) => {
                if running_job.task_id == t {
                    return vec![Action::NoOp];
                }
                match best_job_for_task(device_id, t, view) {
                    Some(by) => vec![Action::Preempt { victim: running_job.id, by, device_id }],
                    None => vec![Action::NoOp],
                }
            },
            None => vec![Action::NoOp],
        }
    }

    fn on_criticality_change(
        &mut self,
        new_level: CriticalityLevel,
        _trigger_job: &Job,
        view: &SchedulerView<'_>,
    ) -> (actions: Vec<Action>)
        ensures
            actions@ == fixed_priority::criticality_change(new_level, view@),
            final(self).active_task == refreshed(old(self).active_task, view@),
    {
        self.refresh_active_task(view);
        fixed_priority::change_criticality(new_level, view)
    }

    fn on_device_idle(&mut self, device_id: DeviceId, view: &SchedulerView<'_>) -> (actions: Vec<
        Action,
    >)
        ensures
            actions@ == free_device(old(self).active_task, device_id, view@),
            final(self).active_task == refreshed(old(self).active_task, view@),
    {
        self.fill_device(device_id, view)
    }

    fn on_reevaluation(
        &mut self,
        _trigger: ReevaluationTrigger,
        _view: &SchedulerView<'_>,
    ) -> (actions: Vec<Action>)
        ensures
            actions@ == seq![Action::NoOp],
            *final(self) == *old(self),
    {
        vec![Action::NoOp]
    }
}

/// A free device never takes a job of another task than the active one.
pub proof fn law_free_device_serves_the_gang(queue: Seq<QueuedJobInfo>, task: TaskId)
    ensures
        best_waiting(queue, task) matches Some(q) ==> q.task_id == task,
{
    lemma_waiting_of(queue, task);
    select::law_least_is_first_minimum(queue_keys(waiting_of(queue, task)));
}

/// The waiting jobs of a task are of that task.
proof fn lemma_waiting_of(queue: Seq<QueuedJobInfo>, task: TaskId)
    ensures
        forall|i: int|
            0 <= i < waiting_of(queue, task).len() ==> (#[trigger] waiting_of(
                queue,
                task,
            )[i]).task_id == task,
    decreases queue.len(),
{
    if queue.len() > 0 {
        lemma_waiting_of(queue.drop_last(), task);
    }
}

} // verus!

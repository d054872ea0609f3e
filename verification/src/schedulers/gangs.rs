//! How gang scheduling keeps the devices to one task at a time.

use crate::ids::{DeviceId, TaskId};
use crate::job::Job;
use crate::scheduler::{Action, QueuedJobInfo, RunningJobInfo, Scheduler, Sight};
use crate::schedulers::conduct;
use crate::schedulers::conduct::{ahead, all_busy, is_shortest, only, Order};
use crate::schedulers::contention;
use crate::schedulers::contention::{is_shortest_idle, preempts_last, runs_at, someone_yields};
use crate::schedulers::modes;
use crate::schedulers::modes::{is_first_of, none_of};
use crate::schedulers::{gang, global_edf, tables};
use crate::schedulers::GangScheduler;
use crate::search;
use crate::select;
use crate::task::{CriticalityLevel, Task};
use vstd::prelude::*;

verus! {

/// Whether a job runs on some device.
pub open spec fn is_running(view: Sight, r: RunningJobInfo) -> bool {
    exists|i: int| 0 <= i < view.running_jobs.len() && (#[trigger] view.running_jobs[i]).1 == Some(r)
}

/// Whether a job waits in some queue.
pub open spec fn is_waiting(view: Sight, q: QueuedJobInfo) -> bool {
    exists|i: int, k: int|
        0 <= i < view.ready_queues.len() && 0 <= k < view.ready_queues[i].1.len() && (
        #[trigger] view.ready_queues[i].1[k]) == q
}

/// Whether a task has a job that runs or waits.
pub open spec fn has_work(view: Sight, task: TaskId) -> bool {
    ||| exists|r: RunningJobInfo| #[trigger] is_running(view, r) && r.task_id == task
    ||| exists|q: QueuedJobInfo| #[trigger] is_waiting(view, q) && q.task_id == task
}

/// Whether a running job is the most urgent one by priority, deadline and task.
pub open spec fn leads_running(view: Sight, r: RunningJobInfo) -> bool {
    &&& is_running(view, r)
    &&& forall|s: RunningJobInfo| #[trigger]
        is_running(view, s) ==> !ahead(
            (s.priority as int, s.absolute_deadline as int, s.task_id.0 as int, 0, 0, 0),
            (r.priority as int, r.absolute_deadline as int, r.task_id.0 as int, 0, 0, 0),
        )
}

/// Whether a waiting job is the most urgent one by priority, deadline, task and
/// id.
pub open spec fn leads_waiting(view: Sight, q: QueuedJobInfo) -> bool {
    &&& is_waiting(view, q)
    &&& forall|s: QueuedJobInfo| #[trigger]
        is_waiting(view, s) ==> !ahead(
            (
                s.priority as int,
                s.absolute_deadline as int,
                s.task_id.0 as int,
                s.job_id.0 as int,
                0,
                0,
            ),
            (
                q.priority as int,
                q.absolute_deadline as int,
                q.task_id.0 as int,
                q.job_id.0 as int,
                0,
                0,
            ),
        )
}

/// Whether a task is the active one: the task that was stays while it has work;
/// else it is that of the most urgent running job, else that of the most urgent
/// waiting one, and none where there is no job.
pub open spec fn is_active(before: Option<TaskId>, view: Sight, active: Option<TaskId>) -> bool {
    match before {
        Some(t) if has_work(view, t) => active == Some(t),
        _ => match active {
            Some(t) => {
                ||| exists|r: RunningJobInfo| #[trigger] leads_running(view, r) && r.task_id == t
                ||| (forall|r: RunningJobInfo| !#[trigger] is_running(view, r)) && exists|
                    q: QueuedJobInfo,
                | #[trigger]
                    leads_waiting(view, q) && q.task_id == t
            },
            None => {
                &&& forall|r: RunningJobInfo| !#[trigger] is_running(view, r)
                &&& forall|q: QueuedJobInfo| !#[trigger] is_waiting(view, q)
            },
        },
    }
}

proof fn lemma_active(before: Option<TaskId>, view: Sight)
    ensures
        is_active(before, view, gang::refreshed(before, view)),
{
    let running = tables::running_list(view.running_jobs);
    let waiting = tables::waiting_list(view.ready_queues);
    assert forall|r: RunningJobInfo| #[trigger] is_running(view, r) <==> running.contains(r) by {
        modes::lemma_running_list(view, r);
    }
    assert forall|q: QueuedJobInfo| #[trigger] is_waiting(view, q) <==> waiting.contains(q) by {
        modes::lemma_waiting_list(view, q);
    }
    if let Some(t) = before {
        lemma_task_runs(view, t);
        if gang::task_waits(waiting, t) {
            let i = choose|i: int| 0 <= i < waiting.len() && (#[trigger] waiting[i]).task_id == t;
            assert(waiting.contains(waiting[i]));
            assert(is_waiting(view, waiting[i]));
        }
        if exists|q: QueuedJobInfo| #[trigger] is_waiting(view, q) && q.task_id == t {
            let q = choose|q: QueuedJobInfo| #[trigger] is_waiting(view, q) && q.task_id == t;
            let i = choose|i: int| 0 <= i < waiting.len() && waiting[i] == q;
            assert(waiting[i].task_id == t);
        }
    }
    let leaders = gang::leader_keys(running);
    let followers = gang::follower_keys(waiting);
    select::law_least_is_first_minimum(leaders);
    select::law_least_is_first_minimum(followers);
    match select::least(leaders) {
        Some(at) => {
            let r = running[at];
            assert(running.contains(r));
            assert forall|s: RunningJobInfo| #[trigger] is_running(view, s) implies !ahead(
                (s.priority as int, s.absolute_deadline as int, s.task_id.0 as int, 0, 0, 0),
                (r.priority as int, r.absolute_deadline as int, r.task_id.0 as int, 0, 0, 0),
            ) by {
                let k = choose|k: int| 0 <= k < running.len() && running[k] == s;
                assert(!leaders[k].less(leaders[at]));
            }
            assert(leads_running(view, r));
        },
        None => {
            assert forall|r: RunningJobInfo| !#[trigger] is_running(view, r) by {}
            if let Some(at) = select::least(followers) {
                let q = waiting[at];
                assert(waiting.contains(q));
                assert forall|s: QueuedJobInfo| #[trigger] is_waiting(view, s) implies !ahead(
                    (
                        s.priority as int,
                        s.absolute_deadline as int,
                        s.task_id.0 as int,
                        s.job_id.0 as int,
                        0,
                        0,
                    ),
                    (
                        q.priority as int,
                        q.absolute_deadline as int,
                        q.task_id.0 as int,
                        q.job_id.0 as int,
                        0,
                        0,
                    ),
                ) by {
                    let k = choose|k: int| 0 <= k < waiting.len() && waiting[k] == s;
                    assert(!followers[k].less(followers[at]));
                }
                assert(leads_waiting(view, q));
            }
        },
    }
}

proof fn lemma_task_runs(view: Sight, t: TaskId)
    ensures
        gang::task_runs(tables::running_list(view.running_jobs), t) <==> exists|
            r: RunningJobInfo,
        | #[trigger] is_running(view, r) && r.task_id == t,
{
    let running = tables::running_list(view.running_jobs);
    if gang::task_runs(running, t) {
        let i = choose|i: int| 0 <= i < running.len() && (#[trigger] running[i]).task_id == t;
        assert(running.contains(running[i]));
        modes::lemma_running_list(view, running[i]);
        assert(is_running(view, running[i]));
    }
    if exists|r: RunningJobInfo| #[trigger] is_running(view, r) && r.task_id == t {
        let r = choose|r: RunningJobInfo| #[trigger] is_running(view, r) && r.task_id == t;
        modes::lemma_running_list(view, r);
        let i = choose|i: int| 0 <= i < running.len() && running[i] == r;
        assert(running[i].task_id == t);
    }
}

/// Waiting jobs by priority, deadline, release and id.
pub open spec fn urgency_order() -> spec_fn(QueuedJobInfo) -> Order {
    |q: QueuedJobInfo|
        (
            q.priority as int,
            q.absolute_deadline as int,
            q.release_time as int,
            q.job_id.0 as int,
            0,
            0,
        )
}

/// The jobs of a task count.
pub open spec fn of_task(task: TaskId) -> spec_fn(QueuedJobInfo) -> bool {
    |q: QueuedJobInfo| q.task_id == task
}

proof fn lemma_waiting_of(queue: Seq<QueuedJobInfo>, task: TaskId, q: QueuedJobInfo)
    ensures
        gang::waiting_of(queue, task).contains(q) <==> queue.contains(q) && q.task_id == task,
    decreases queue.len(),
{
    if queue.len() > 0 {
        lemma_waiting_of(queue.drop_last(), task, q);
        search::lemma_last(queue, q);
        search::lemma_push(gang::waiting_of(queue.drop_last(), task), queue.last(), q);
    }
}

proof fn lemma_running_of(list: Seq<RunningJobInfo>, task: TaskId, r: RunningJobInfo)
    ensures
        gang::running_of(list, task).contains(r) <==> list.contains(r) && r.task_id == task,
    decreases list.len(),
{
    if list.len() > 0 {
        lemma_running_of(list.drop_last(), task, r);
        search::lemma_last(list, r);
        search::lemma_push(gang::running_of(list.drop_last(), task), list.last(), r);
    }
}

/// Whether a job is the most urgent one of a task in a queue.
pub open spec fn chosen_of(
    queue: Seq<QueuedJobInfo>,
    task: TaskId,
    next: Option<QueuedJobInfo>,
) -> bool {
    match next {
        Some(w) => exists|i: int| #[trigger]
            is_first_of(queue, i, urgency_order(), of_task(task)) && queue[i] == w,
        None => none_of(queue, of_task(task)),
    }
}

proof fn lemma_best_waiting(queue: Seq<QueuedJobInfo>, task: TaskId)
    ensures
        chosen_of(queue, task, gang::best_waiting(queue, task)),
{
    let list = gang::waiting_of(queue, task);
    let keys = gang::queue_keys(list);
    let order = urgency_order();
    let counts = of_task(task);
    select::law_least_is_first_minimum(keys);
    match select::least(keys) {
        Some(at) => {
            let w = list[at];
            assert(list.contains(w));
            lemma_waiting_of(queue, task, w);
            let i = choose|i: int| 0 <= i < queue.len() && queue[i] == w;
            assert forall|j: int| 0 <= j < queue.len() && counts(queue[j]) implies !ahead(
                order(#[trigger] queue[j]),
                order(queue[i]),
            ) by {
                assert(queue.contains(queue[j]));
                lemma_waiting_of(queue, task, queue[j]);
                let k = choose|k: int| 0 <= k < list.len() && list[k] == queue[j];
                assert(!keys[k].less(keys[at]));
            }
            assert(is_first_of(queue, i, order, counts));
        },
        None => {
            assert forall|j: int| 0 <= j < queue.len() implies !counts(#[trigger] queue[j]) by {
                assert(queue.contains(queue[j]));
                lemma_waiting_of(queue, task, queue[j]);
            }
        },
    }
}

/// Whether a device serves the active gang: it dispatches the most urgent
/// waiting job of the active task, and nothing of another one.
pub open spec fn serves_gang(
    actions: Seq<Action>,
    queue: Seq<QueuedJobInfo>,
    d: DeviceId,
    active: Option<TaskId>,
) -> bool {
    match active {
        Some(t) if !none_of(queue, of_task(t)) => exists|i: int| #[trigger]
            is_first_of(queue, i, urgency_order(), of_task(t)) && only(
                actions,
                Action::Dispatch { job_id: queue[i].job_id, device_id: d },
            ),
        _ => only(actions, Action::NoOp),
    }
}

/// Whether at a preemption point a job of another task gives way to the most
/// urgent waiting job of the active one.
pub open spec fn yields_to_gang(
    actions: Seq<Action>,
    queue: Seq<QueuedJobInfo>,
    d: DeviceId,
    running: &Job,
    active: Option<TaskId>,
) -> bool {
    match active {
        Some(t) if running.task_id != t && !none_of(queue, of_task(t)) => exists|i: int| #[trigger]
            is_first_of(queue, i, urgency_order(), of_task(t)) && only(
                actions,
                Action::Preempt { victim: running.id, by: queue[i].job_id, device_id: d },
            ),
        _ => only(actions, Action::NoOp),
    }
}

/// Gang scheduling keeps the active task while it has work. A free device runs
/// the most urgent waiting job of the active task only, which at a preemption
/// point takes over from a job of any other task.
pub proof fn law_gangs_hold_the_devices(
    mind: GangScheduler,
    job: &Job,
    d: DeviceId,
    level: CriticalityLevel,
    view: Sight,
    actions: Seq<Action>,
    after: GangScheduler,
)
    ensures
        mind.answers_completion(job, d, view, actions, &after) || mind.answers_idle(
            d,
            view,
            actions,
            &after,
        ) ==> is_active(mind.active_task, view, after.active_task) && serves_gang(
            actions,
            view.waiting_at(d),
            d,
            after.active_task,
        ),
        mind.answers_point(d, job, view, actions, &after) ==> is_active(
            mind.active_task,
            view,
            after.active_task,
        ) && yields_to_gang(actions, view.waiting_at(d), d, job, after.active_task),
        mind.answers_change(level, job, view, actions, &after) ==> is_active(
            mind.active_task,
            view,
            after.active_task,
        ),
{
    lemma_active(mind.active_task, view);
    if let Some(t) = gang::refreshed(mind.active_task, view) {
        lemma_best_waiting(view.waiting_at(d), t);
        if let Some(w) = gang::best_waiting(view.waiting_at(d), t) {
            let i = choose|i: int| #[trigger]
                is_first_of(view.waiting_at(d), i, urgency_order(), of_task(t))
                    && view.waiting_at(d)[i] == w;
            let counts = of_task(t);
            assert(counts(view.waiting_at(d)[i]));
        }
    }
}

/// Whether an arriving job is more urgent than a running one: by priority, then
/// by deadline.
pub open spec fn more_urgent(job: &Job, r: RunningJobInfo) -> bool {
    ahead(
        (job.effective_priority as int, job.absolute_deadline as int, 0, 0, 0, 0),
        (r.priority as int, r.absolute_deadline as int, 0, 0, 0, 0),
    )
}

/// Whether an arriving job leaves the devices to the active gang: the gang is
/// that of another task, and some running job of it is as urgent.
pub open spec fn stands_back(job: &Job, view: Sight, active: TaskId) -> bool {
    &&& active != job.task_id
    &&& exists|r: RunningJobInfo| #[trigger]
        is_running(view, r) && r.task_id == active && !more_urgent(job, r)
}

proof fn lemma_stands_back(job: &Job, view: Sight, active: TaskId)
    ensures
        gang::yields(job, active, view) <==> stands_back(job, view, active),
{
    let running = tables::running_list(view.running_jobs);
    let list = gang::running_of(running, active);
    let keys = gang::member_keys(list);
    lemma_task_runs(view, active);
    select::law_least_is_first_minimum(keys);
    match select::least(keys) {
        Some(at) => {
            let best = list[at];
            assert(list.contains(best));
            lemma_running_of(running, active, best);
            modes::lemma_running_list(view, best);
            assert(is_running(view, best));
            if stands_back(job, view, active) {
                let r = choose|r: RunningJobInfo| #[trigger]
                    is_running(view, r) && r.task_id == active && !more_urgent(job, r);
                modes::lemma_running_list(view, r);
                lemma_running_of(running, active, r);
                let k = choose|k: int| 0 <= k < list.len() && list[k] == r;
                assert(!keys[k].less(keys[at]));
                assert(!more_urgent(job, best));
            }
        },
        None => {
            if stands_back(job, view, active) {
                let r = choose|r: RunningJobInfo| #[trigger]
                    is_running(view, r) && r.task_id == active && !more_urgent(job, r);
                modes::lemma_running_list(view, r);
                lemma_running_of(running, active, r);
            }
            if gang::task_runs(running, active) {
                let i = choose|i: int|
                    0 <= i < running.len() && (#[trigger] running[i]).task_id == active;
                assert(running.contains(running[i]));
                lemma_running_of(running, active, running[i]);
            }
        },
    }
}

/// Running jobs by priority, deadline and id.
pub open spec fn member_order() -> spec_fn(DeviceId, RunningJobInfo) -> Order {
    |d: DeviceId, r: RunningJobInfo|
        (r.priority as int, r.absolute_deadline as int, r.job_id.0 as int, 0, 0, 0)
}

/// Jobs of other tasks may give way.
pub open spec fn of_another(task: TaskId) -> spec_fn(DeviceId, RunningJobInfo) -> bool {
    |d: DeviceId, r: RunningJobInfo| r.task_id != task
}

/// Jobs of other tasks that are less urgent may give way.
pub open spec fn less_urgent(job: &Job) -> spec_fn(DeviceId, RunningJobInfo) -> bool {
    |d: DeviceId, r: RunningJobInfo| r.task_id != job.task_id && more_urgent(job, r)
}

proof fn lemma_others(
    busy: Seq<(DeviceId, RunningJobInfo)>,
    task: TaskId,
    t: (DeviceId, RunningJobInfo),
)
    ensures
        gang::others_of(busy, task).contains(t) <==> busy.contains(t) && t.1.task_id != task,
    decreases busy.len(),
{
    if busy.len() > 0 {
        lemma_others(busy.drop_last(), task, t);
        search::lemma_last(busy, t);
        search::lemma_push(gang::others_of(busy.drop_last(), task), busy.last(), t);
    }
}

proof fn lemma_victim(view: Sight, ids: Seq<DeviceId>, task: TaskId)
    ensures
        match gang::victim(global_edf::busy_of(view, ids), task) {
            Some((d, r)) => contention::is_last(
                view,
                ids,
                d,
                r,
                member_order(),
                of_another(task),
            ),
            None => !someone_yields(view, ids, of_another(task)),
        },
{
    let busy = global_edf::busy_of(view, ids);
    let list = gang::others_of(busy, task);
    let keys = gang::other_keys(list);
    let order = member_order();
    let may = of_another(task);
    select::law_greatest_is_last_maximum(keys);
    assert forall|e: DeviceId, x: RunningJobInfo| #[trigger]
        runs_at(view, ids, e, x) && may(e, x) implies list.contains((e, x)) by {
        contention::lemma_busy(view, ids, (e, x));
        lemma_others(busy, task, (e, x));
    }
    match select::greatest(keys) {
        Some(at) => {
            let (d, r) = list[at];
            assert(list.contains(list[at]));
            lemma_others(busy, task, list[at]);
            contention::lemma_busy(view, ids, list[at]);
            assert forall|e: DeviceId, x: RunningJobInfo| #[trigger]
                runs_at(view, ids, e, x) && may(e, x) implies !ahead(order(d, r), order(e, x)) by {
                let k = choose|k: int| 0 <= k < list.len() && list[k] == (e, x);
                assert(!keys[at].less(keys[k]));
            }
        },
        None => {},
    }
}

/// Under gang scheduling an arriving job stands back where the active task is
/// another one, some running job of which is as urgent: it waits at the
/// shortest queue. Else its task becomes the active one. It runs at once where
/// a device that it can run on is idle, preempts the least urgent job of
/// another task where one is less urgent, and otherwise waits at the shortest
/// queue.
pub proof fn law_gang_arrival(
    mind: GangScheduler,
    job: &Job,
    task: &Task,
    view: Sight,
    actions: Seq<Action>,
    after: GangScheduler,
) -> (found: Option<TaskId>)
    requires
        conduct::held(view),
        mind.answers_arrival(job, task, view, actions, &after),
    ensures
        is_active(mind.active_task, view, found),
        view.compatible_with(task).len() == 0 ==> only(actions, Action::NoOp) && after.active_task
            == found,
        view.compatible_with(task).len() > 0 && (found matches Some(t) && stands_back(
            job,
            view,
            t,
        )) ==> after.active_task == found && waits_shortest(
            actions,
            job,
            view,
            view.compatible_with(task),
        ),
        view.compatible_with(task).len() > 0 && !(found matches Some(t) && stands_back(
            job,
            view,
            t,
        )) ==> {
            let ids = view.compatible_with(task);
            &&& after.active_task == Some(job.task_id)
            &&& !all_busy(view, ids) ==> exists|d: DeviceId| #[trigger]
                is_shortest_idle(view, ids, d) && only(
                    actions,
                    Action::Dispatch { job_id: job.id, device_id: d },
                )
            &&& all_busy(view, ids) && someone_yields(view, ids, less_urgent(job)) ==> preempts_last(
                actions,
                job,
                view,
                ids,
                member_order(),
                of_another(job.task_id),
            )
            &&& all_busy(view, ids) && !someone_yields(view, ids, less_urgent(job))
                ==> waits_shortest(actions, job, view, ids)
        },
{
    let ids = view.compatible_with(task);
    let found = gang::refreshed(mind.active_task, view);
    lemma_active(mind.active_task, view);
    lemma_stands_back(job, view, gang::found_active(mind.active_task, job, view));
    contention::lemma_shortest_idle(view, ids);
    conduct::lemma_shortest(view, ids);
    lemma_victim(view, ids, job.task_id);
    let may = of_another(job.task_id);
    let yields = less_urgent(job);
    let order = member_order();
    match gang::victim(global_edf::busy_of(view, ids), job.task_id) {
        Some((d, r)) => {
            assert(contention::is_last(view, ids, d, r, order, may));
            assert(runs_at(view, ids, d, r) && may(d, r));
            if someone_yields(view, ids, yields) {
                let (e, x) = choose|e: DeviceId, x: RunningJobInfo| #[trigger]
                    runs_at(view, ids, e, x) && yields(e, x);
                assert(may(e, x));
                assert(!ahead(order(d, r), order(e, x)));
            } else {
                assert(!yields(d, r));
            }
        },
        None => {
            if someone_yields(view, ids, yields) {
                let (e, x) = choose|e: DeviceId, x: RunningJobInfo| #[trigger]
                    runs_at(view, ids, e, x) && yields(e, x);
                assert(may(e, x));
            }
        },
    }
    found
}

/// Whether an arriving job waits at the shortest queue of a list of devices.
pub open spec fn waits_shortest(
    actions: Seq<Action>,
    job: &Job,
    view: Sight,
    ids: Seq<DeviceId>,
) -> bool {
    exists|d: DeviceId| #[trigger]
        is_shortest(view, ids, d) && only(
            actions,
            Action::Enqueue { job_id: job.id, device_id: d },
        )
}

} // verus!

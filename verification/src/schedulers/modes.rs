//! What a change of the criticality level asks of the algorithms, and how
//! virtual deadlines order jobs in the two levels.

use crate::ids::{DeviceId, JobId};
use crate::job::Job;
use crate::scheduler;
use crate::scheduler::{Action, QueuedJobInfo, RunningJobInfo, Scheduler, Sight};
use crate::schedulers::conduct;
use crate::schedulers::conduct::{ahead, only, Order};
use crate::schedulers::contention;
use crate::schedulers::{edfvd, placement, tables};
use crate::schedulers::{
    CpEdfScheduler, EdfScheduler, EdfVdScheduler, FederatedScheduler, FixedPriorityScheduler,
    GPreemptScheduler, GangScheduler, GlobalEdfScheduler, GpuPreemptivePriorityScheduler,
    HeftScheduler, LlfScheduler, MatchScheduler, RtgpuScheduler, XSchedScheduler,
};
use crate::search;
use crate::select;
use crate::task::{CriticalityLevel, Task};
use vstd::prelude::*;

verus! {

/// Whether a waiting job counts and no job of its queue that counts is ahead
/// of it.
pub open spec fn is_first_of(
    queue: Seq<QueuedJobInfo>,
    i: int,
    order: spec_fn(QueuedJobInfo) -> Order,
    counts: spec_fn(QueuedJobInfo) -> bool,
) -> bool {
    &&& 0 <= i < queue.len()
    &&& counts(queue[i])
    &&& forall|j: int|
        0 <= j < queue.len() && counts(queue[j]) ==> !ahead(
            order(#[trigger] queue[j]),
            order(queue[i]),
        )
}

/// Whether no job of a queue counts.
pub open spec fn none_of(
    queue: Seq<QueuedJobInfo>,
    counts: spec_fn(QueuedJobInfo) -> bool,
) -> bool {
    forall|j: int| 0 <= j < queue.len() ==> !counts(#[trigger] queue[j])
}

/// The deadline that counts for a job: in the low level, a job of high
/// criticality has only a share of its relative deadline.
pub open spec fn counting_deadline(
    num: int,
    den: int,
    level: CriticalityLevel,
    release: int,
    deadline: int,
    mode: CriticalityLevel,
) -> int {
    if mode is Lo && level is Hi {
        let relative = if deadline < release {
            0
        } else {
            deadline - release
        };
        contention::capped(release + contention::capped(relative * num) / den)
    } else {
        deadline
    }
}

/// Waiting jobs by the deadline that counts, deadline, release and id.
pub open spec fn virtual_order(num: int, den: int, mode: CriticalityLevel) -> spec_fn(
    QueuedJobInfo,
) -> Order {
    |q: QueuedJobInfo|
        (
            counting_deadline(
                num,
                den,
                q.criticality,
                q.release_time as int,
                q.absolute_deadline as int,
                mode,
            ),
            q.absolute_deadline as int,
            q.release_time as int,
            q.job_id.0 as int,
            0,
            0,
        )
}

/// In the high level only jobs of high criticality count.
pub open spec fn still_served(mode: CriticalityLevel) -> spec_fn(QueuedJobInfo) -> bool {
    |q: QueuedJobInfo| mode is Lo || q.criticality is Hi
}

proof fn lemma_served(queue: Seq<QueuedJobInfo>, mode: CriticalityLevel, q: QueuedJobInfo)
    ensures
        edfvd::served_of(queue, mode).contains(q) <==> queue.contains(q) && still_served(mode)(q),
    decreases queue.len(),
{
    if queue.len() > 0 {
        lemma_served(queue.drop_last(), mode, q);
        search::lemma_last(queue, q);
        search::lemma_push(
            edfvd::served_of(queue.drop_last(), mode),
            queue.last(),
            q,
        );
    }
}

proof fn lemma_virtual(
    num: u64,
    den: u64,
    level: CriticalityLevel,
    release: u64,
    deadline: u64,
    mode: CriticalityLevel,
)
    requires
        den > 0,
    ensures
        edfvd::virtual_deadline(num, den, level, release, deadline, mode) == counting_deadline(
            num as int,
            den as int,
            level,
            release as int,
            deadline as int,
            mode,
        ),
{
    let relative: int = if deadline < release {
        0
    } else {
        deadline - release
    };
    let scaled = contention::capped(relative * num);
    assert(0 <= relative * num) by (nonlinear_arith)
        requires
            relative >= 0,
    ;
    assert(0 <= scaled / (den as int) <= scaled) by (nonlinear_arith)
        requires
            scaled >= 0,
            den > 0,
    ;
}

/// Whether a job is chosen from a queue by virtual deadlines.
pub open spec fn chosen_by_virtual_deadline(
    mind: EdfVdScheduler,
    queue: Seq<QueuedJobInfo>,
    mode: CriticalityLevel,
    next: Option<QueuedJobInfo>,
) -> bool {
    match next {
        Some(w) => exists|i: int| #[trigger]
            is_first_of(
                queue,
                i,
                virtual_order(mind.num() as int, mind.den() as int, mode),
                still_served(mode),
            ) && queue[i] == w,
        None => none_of(queue, still_served(mode)),
    }
}

proof fn lemma_best_virtual(
    mind: EdfVdScheduler,
    queue: Seq<QueuedJobInfo>,
    mode: CriticalityLevel,
)
    requires
        mind.den() > 0,
    ensures
        chosen_by_virtual_deadline(
            mind,
            queue,
            mode,
            edfvd::best_virtual(mind.num(), mind.den(), queue, mode),
        ),
{
    let list = edfvd::served_of(queue, mode);
    let keys = edfvd::waiting_keys(mind.num(), mind.den(), list, mode);
    let order = virtual_order(mind.num() as int, mind.den() as int, mode);
    let counts = still_served(mode);
    select::law_least_is_first_minimum(keys);
    match select::least(keys) {
        Some(at) => {
            let w = list[at];
            assert(list.contains(w));
            lemma_served(queue, mode, w);
            let i = choose|i: int| 0 <= i < queue.len() && queue[i] == w;
            lemma_virtual(
                mind.num(),
                mind.den(),
                w.criticality,
                w.release_time,
                w.absolute_deadline,
                mode,
            );
            assert forall|j: int| 0 <= j < queue.len() && counts(queue[j]) implies !ahead(
                order(#[trigger] queue[j]),
                order(queue[i]),
            ) by {
                let q = queue[j];
                assert(queue.contains(q));
                lemma_served(queue, mode, q);
                let k = choose|k: int| 0 <= k < list.len() && list[k] == q;
                assert(!keys[k].less(keys[at]));
                lemma_virtual(
                    mind.num(),
                    mind.den(),
                    q.criticality,
                    q.release_time,
                    q.absolute_deadline,
                    mode,
                );
            }
            assert(is_first_of(queue, i, order, counts));
        },
        None => {
            assert forall|j: int| 0 <= j < queue.len() implies !counts(#[trigger] queue[j]) by {
                assert(queue.contains(queue[j]));
                lemma_served(queue, mode, queue[j]);
            }
        },
    }
}

/// The deadline that counts for a running job.
pub open spec fn of_running(mind: EdfVdScheduler, r: RunningJobInfo, mode: CriticalityLevel) -> int {
    counting_deadline(
        mind.num() as int,
        mind.den() as int,
        r.criticality,
        r.release_time as int,
        r.absolute_deadline as int,
        mode,
    )
}

/// At a preemption point EDF-VD takes the first waiting job that is served. It
/// takes over exactly where the deadline that counts for it is before that of
/// the running job; a running job that is no longer served is dropped for it.
pub proof fn law_virtual_deadlines_decide_at_points(
    mind: EdfVdScheduler,
    d: DeviceId,
    job: &Job,
    view: Sight,
    actions: Seq<Action>,
    after: EdfVdScheduler,
)
    requires
        mind.den() > 0,
        mind.answers_point(d, job, view, actions, &after),
    ensures
        after == mind,
        view.running_at(d) is None || none_of(
            view.waiting_at(d),
            still_served(view.criticality_level),
        ) ==> only(actions, Action::NoOp),
        view.running_at(d) matches Some(r) ==> !none_of(
            view.waiting_at(d),
            still_served(view.criticality_level),
        ) ==> exists|i: int| #[trigger]
            is_first_of(
                view.waiting_at(d),
                i,
                virtual_order(mind.num() as int, mind.den() as int, view.criticality_level),
                still_served(view.criticality_level),
            ) && if view.criticality_level is Hi && r.criticality is Lo {
                actions =~= seq![
                    Action::DropJob { job_id: r.job_id },
                    Action::Dispatch { job_id: view.waiting_at(d)[i].job_id, device_id: d },
                ]
            } else if counting_deadline(
                mind.num() as int,
                mind.den() as int,
                view.waiting_at(d)[i].criticality,
                view.waiting_at(d)[i].release_time as int,
                view.waiting_at(d)[i].absolute_deadline as int,
                view.criticality_level,
            ) < of_running(mind, r, view.criticality_level) {
                only(
                    actions,
                    Action::Preempt {
                        victim: job.id,
                        by: view.waiting_at(d)[i].job_id,
                        device_id: d,
                    },
                )
            } else {
                only(actions, Action::NoOp)
            },
{
    let mode = view.criticality_level;
    let queue = view.waiting_at(d);
    lemma_best_virtual(mind, queue, mode);
    if let Some(r) = view.running_at(d) {
        lemma_virtual(
            mind.num(),
            mind.den(),
            r.criticality,
            r.release_time,
            r.absolute_deadline,
            mode,
        );
        if let Some(w) = edfvd::best_virtual(mind.num(), mind.den(), queue, mode) {
            lemma_virtual(
                mind.num(),
                mind.den(),
                w.criticality,
                w.release_time,
                w.absolute_deadline,
                mode,
            );
        }
    }
}

/// In the low level a waiting job of high criticality whose release and share
/// of its relative deadline add up to a time before the deadline of a running
/// job of low criticality lets the running job be preempted at a preemption
/// point, whatever its own deadline.
pub proof fn law_virtual_deadlines_let_high_jobs_pass(
    mind: EdfVdScheduler,
    d: DeviceId,
    job: &Job,
    view: Sight,
    actions: Seq<Action>,
    after: EdfVdScheduler,
    r: RunningJobInfo,
    i: int,
)
    requires
        mind.den() > 0,
        mind.answers_point(d, job, view, actions, &after),
        view.criticality_level is Lo,
        view.running_at(d) == Some(r),
        r.criticality is Lo,
        0 <= i < view.waiting_at(d).len(),
        view.waiting_at(d)[i].criticality is Hi,
        view.waiting_at(d)[i].release_time <= view.waiting_at(d)[i].absolute_deadline,
        (view.waiting_at(d)[i].absolute_deadline - view.waiting_at(d)[i].release_time) * mind.num()
            <= u64::MAX,
        view.waiting_at(d)[i].release_time + (view.waiting_at(d)[i].absolute_deadline
            - view.waiting_at(d)[i].release_time) * mind.num() / (mind.den() as int)
            < r.absolute_deadline,
    ensures
        exists|j: int|
            0 <= j < view.waiting_at(d).len() && only(
                actions,
                Action::Preempt {
                    victim: job.id,
                    by: (#[trigger] view.waiting_at(d)[j]).job_id,
                    device_id: d,
                },
            ),
{
    law_virtual_deadlines_decide_at_points(mind, d, job, view, actions, after);
    let mode = view.criticality_level;
    let queue = view.waiting_at(d);
    let order = virtual_order(mind.num() as int, mind.den() as int, mode);
    let counts = still_served(mode);
    assert(counts(queue[i]));
    let j = choose|j: int| #[trigger]
        is_first_of(queue, j, order, counts) && if counting_deadline(
            mind.num() as int,
            mind.den() as int,
            queue[j].criticality,
            queue[j].release_time as int,
            queue[j].absolute_deadline as int,
            mode,
        ) < of_running(mind, r, mode) {
            only(
                actions,
                Action::Preempt { victim: job.id, by: queue[j].job_id, device_id: d },
            )
        } else {
            only(actions, Action::NoOp)
        };
    assert(!ahead(order(queue[i]), order(queue[j])));
}

/// EDF-VD drops a job of low criticality that arrives in the high level. Any
/// other goes to the least loaded device that it can run on. It drops a
/// running job that is no longer served, and preempts another exactly where it
/// comes first by the deadline that counts, deadline, release and id.
pub proof fn law_virtual_deadlines_decide_on_arrival(
    mind: EdfVdScheduler,
    job: &Job,
    task: &Task,
    view: Sight,
    actions: Seq<Action>,
    after: EdfVdScheduler,
)
    requires
        mind.den() > 0,
        conduct::held(view),
        mind.answers_arrival(job, task, view, actions, &after),
    ensures
        after == mind,
        view.criticality_level is Hi && task.criticality is Lo ==> only(
            actions,
            Action::DropJob { job_id: job.id },
        ),
        !(view.criticality_level is Hi && task.criticality is Lo) && view.compatible_with(
            task,
        ).len() == 0 ==> only(actions, Action::NoOp),
        !(view.criticality_level is Hi && task.criticality is Lo) && view.compatible_with(
            task,
        ).len() > 0 ==> exists|d: DeviceId| #[trigger]
            conduct::is_least_loaded(view, view.compatible_with(task), d) && match view.running_at(
                d,
            ) {
                Some(r) if view.criticality_level is Hi && r.criticality is Lo => actions =~= seq![
                    Action::DropJob { job_id: r.job_id },
                    Action::Dispatch { job_id: job.id, device_id: d },
                ],
                running => conduct::joins(
                    actions,
                    job.id,
                    d,
                    running,
                    |r: RunningJobInfo|
                        ahead(
                            (
                                counting_deadline(
                                    mind.num() as int,
                                    mind.den() as int,
                                    task.criticality,
                                    job.release_time as int,
                                    job.absolute_deadline as int,
                                    view.criticality_level,
                                ),
                                job.absolute_deadline as int,
                                job.release_time as int,
                                job.id.0 as int,
                                0,
                                0,
                            ),
                            (
                                of_running(mind, r, view.criticality_level),
                                r.absolute_deadline as int,
                                r.release_time as int,
                                r.job_id.0 as int,
                                0,
                                0,
                            ),
                        ),
                ),
            },
{
    let mode = view.criticality_level;
    let ids = view.compatible_with(task);
    conduct::lemma_least_loaded(view, ids);
    lemma_virtual(
        mind.num(),
        mind.den(),
        task.criticality,
        job.release_time,
        job.absolute_deadline,
        mode,
    );
    if let Some(d) = placement::least_loaded(view, ids, true) {
        if let Some(r) = view.running_at(d) {
            lemma_virtual(
                mind.num(),
                mind.den(),
                r.criticality,
                r.release_time,
                r.absolute_deadline,
                mode,
            );
        }
        assert(conduct::is_least_loaded(view, ids, d));
    }
}

/// When a job completes, EDF-VD runs the first waiting job that is served; a
/// device that is idle takes the head of its queue.
pub proof fn law_virtual_deadlines_decide_what_runs_next(
    mind: EdfVdScheduler,
    job: &Job,
    d: DeviceId,
    view: Sight,
    actions: Seq<Action>,
    after: EdfVdScheduler,
)
    requires
        mind.den() > 0,
    ensures
        mind.answers_completion(job, d, view, actions, &after) ==> if none_of(
            view.waiting_at(d),
            still_served(view.criticality_level),
        ) {
            only(actions, Action::NoOp)
        } else {
            exists|i: int| #[trigger]
                is_first_of(
                    view.waiting_at(d),
                    i,
                    virtual_order(mind.num() as int, mind.den() as int, view.criticality_level),
                    still_served(view.criticality_level),
                ) && only(
                    actions,
                    Action::Dispatch { job_id: view.waiting_at(d)[i].job_id, device_id: d },
                )
        },
        mind.answers_idle(d, view, actions, &after) ==> conduct::serves_head(
            actions,
            view.waiting_at(d),
            d,
        ),
{
    lemma_best_virtual(mind, view.waiting_at(d), view.criticality_level);
}

/// Whether a job of low criticality waits in some queue.
pub open spec fn low_waits(view: Sight, id: JobId) -> bool {
    exists|i: int, k: int|
        0 <= i < view.ready_queues.len() && 0 <= k < view.ready_queues[i].1.len() && (
        #[trigger] view.ready_queues[i].1[k]).job_id == id && view.ready_queues[i].1[k].criticality
            is Lo
}

/// Whether a job of low criticality runs on some device.
pub open spec fn low_runs(view: Sight, id: JobId) -> bool {
    exists|i: int|
        0 <= i < view.running_jobs.len() && ((#[trigger] view.running_jobs[i]).1 matches Some(r)
            && r.job_id == id && r.criticality is Lo)
}

/// Whether actions drop the waiting jobs of low criticality where the level
/// rises, and nothing else.
pub open spec fn drops_waiting(actions: Seq<Action>, level: CriticalityLevel, view: Sight) -> bool {
    match level {
        CriticalityLevel::Lo => only(actions, Action::NoOp),
        CriticalityLevel::Hi => {
            &&& forall|id: JobId|
                low_waits(view, id) <==> #[trigger] actions.contains(
                    Action::DropJob { job_id: id },
                )
            &&& forall|i: int| 0 <= i < actions.len() ==> (#[trigger] actions[i]) is DropJob
        },
    }
}

/// Whether actions drop the waiting jobs of low criticality where the level
/// rises, and do nothing where there are none.
pub open spec fn drops_waiting_or_rests(
    actions: Seq<Action>,
    level: CriticalityLevel,
    view: Sight,
) -> bool {
    if level is Hi && (exists|id: JobId| #[trigger] low_waits(view, id)) {
        drops_waiting(actions, level, view)
    } else {
        only(actions, Action::NoOp)
    }
}

proof fn lemma_drops_of(queue: Seq<QueuedJobInfo>, id: JobId)
    ensures
        scheduler::lo_drops_of(queue).contains(Action::DropJob { job_id: id }) <==> exists|k: int|
            0 <= k < queue.len() && (#[trigger] queue[k]).job_id == id && queue[k].criticality
                is Lo,
        forall|i: int|
            0 <= i < scheduler::lo_drops_of(queue).len() ==> (#[trigger] scheduler::lo_drops_of(
                queue,
            )[i]) is DropJob,
    decreases queue.len(),
{
    if queue.len() > 0 {
        let rest = queue.drop_last();
        let last = queue.last();
        lemma_drops_of(rest, id);
        search::lemma_push(
            scheduler::lo_drops_of(rest),
            Action::DropJob { job_id: last.job_id },
            Action::DropJob { job_id: id },
        );
        if exists|k: int|
            0 <= k < queue.len() && (#[trigger] queue[k]).job_id == id && queue[k].criticality
                is Lo {
            let k = choose|k: int|
                0 <= k < queue.len() && (#[trigger] queue[k]).job_id == id && queue[k].criticality
                    is Lo;
            if k < rest.len() {
                assert(rest[k].job_id == id);
            }
        }
        if exists|k: int|
            0 <= k < rest.len() && (#[trigger] rest[k]).job_id == id && rest[k].criticality is Lo {
            let k = choose|k: int|
                0 <= k < rest.len() && (#[trigger] rest[k]).job_id == id && rest[k].criticality
                    is Lo;
            assert(queue[k].job_id == id);
        }
        assert(queue[queue.len() - 1] == last);
    }
}

proof fn lemma_drops(view: Sight, id: JobId)
    ensures
        scheduler::lo_drops(view.ready_queues).contains(Action::DropJob { job_id: id })
            <==> low_waits(view, id),
        forall|i: int|
            0 <= i < scheduler::lo_drops(view.ready_queues).len() ==> (
            #[trigger] scheduler::lo_drops(view.ready_queues)[i]) is DropJob,
    decreases view.ready_queues.len(),
{
    let queues = view.ready_queues;
    if queues.len() > 0 {
        let rest = Sight { ready_queues: queues.drop_last(), ..view };
        let last = queues.last().1;
        lemma_drops(rest, id);
        lemma_drops_of(last, id);
        search::lemma_sum(
            scheduler::lo_drops(rest.ready_queues),
            scheduler::lo_drops_of(last),
            Action::DropJob { job_id: id },
        );
        if low_waits(view, id) {
            let (i, k) = choose|i: int, k: int|
                0 <= i < queues.len() && 0 <= k < queues[i].1.len() && (
                #[trigger] queues[i].1[k]).job_id == id && queues[i].1[k].criticality is Lo;
            if i < rest.ready_queues.len() {
                assert(rest.ready_queues[i].1[k].job_id == id);
            } else {
                assert(last[k].job_id == id);
            }
        }
        if low_waits(rest, id) {
            let (i, k) = choose|i: int, k: int|
                0 <= i < rest.ready_queues.len() && 0 <= k < rest.ready_queues[i].1.len() && (
                #[trigger] rest.ready_queues[i].1[k]).job_id == id
                    && rest.ready_queues[i].1[k].criticality is Lo;
            assert(queues[i].1[k].job_id == id);
        }
        if exists|k: int|
            0 <= k < last.len() && (#[trigger] last[k]).job_id == id && last[k].criticality is Lo {
            let k = choose|k: int|
                0 <= k < last.len() && (#[trigger] last[k]).job_id == id && last[k].criticality
                    is Lo;
            assert(queues[queues.len() - 1].1[k].job_id == id);
        }
    }
}

proof fn lemma_change(level: CriticalityLevel, view: Sight)
    ensures
        level is Hi ==> drops_waiting(scheduler::lo_drops(view.ready_queues), level, view),
        level is Hi ==> drops_waiting_or_rests(
            scheduler::or_no_op(scheduler::lo_drops(view.ready_queues)),
            level,
            view,
        ),
{
    let actions = scheduler::lo_drops(view.ready_queues);
    assert forall|id: JobId|
        low_waits(view, id) <==> #[trigger] actions.contains(Action::DropJob { job_id: id }) by {
        lemma_drops(view, id);
    }
    lemma_drops(view, JobId(0));
    if actions.len() > 0 {
        assert(actions[0] is DropJob);
        let id = actions[0]->DropJob_job_id;
        assert(actions[0] == Action::DropJob { job_id: id });
        assert(actions.contains(Action::DropJob { job_id: id }));
        assert(low_waits(view, id));
    } else if exists|id: JobId| #[trigger] low_waits(view, id) {
        let id = choose|id: JobId| #[trigger] low_waits(view, id);
        assert(actions.contains(Action::DropJob { job_id: id }));
    }
}

/// Where the level rises, Fixed priority drops exactly the waiting jobs of low
/// criticality; where it falls, it does nothing.
pub proof fn law_fixed_priority_drops_low_jobs(
    mind: FixedPriorityScheduler,
    level: CriticalityLevel,
    job: &Job,
    view: Sight,
    actions: Seq<Action>,
    after: FixedPriorityScheduler,
)
    requires
        mind.answers_change(level, job, view, actions, &after),
    ensures
        drops_waiting(actions, level, view),
{
    lemma_change(level, view);
}

/// Where the level rises, EDF drops exactly the waiting jobs of low
/// criticality; where it falls, it does nothing.
pub proof fn law_edf_drops_low_jobs(
    mind: EdfScheduler,
    level: CriticalityLevel,
    job: &Job,
    view: Sight,
    actions: Seq<Action>,
    after: EdfScheduler,
)
    requires
        mind.answers_change(level, job, view, actions, &after),
    ensures
        drops_waiting(actions, level, view),
{
    lemma_change(level, view);
}

/// Where the level rises, Global EDF drops exactly the waiting jobs of low
/// criticality; where it falls, it does nothing.
pub proof fn law_global_edf_drops_low_jobs(
    mind: GlobalEdfScheduler,
    level: CriticalityLevel,
    job: &Job,
    view: Sight,
    actions: Seq<Action>,
    after: GlobalEdfScheduler,
)
    requires
        mind.answers_change(level, job, view, actions, &after),
    ensures
        drops_waiting(actions, level, view),
{
    lemma_change(level, view);
}

/// Where the level rises, Federated scheduling drops exactly the waiting jobs
/// of low criticality; where it falls, it does nothing.
pub proof fn law_federated_drops_low_jobs(
    mind: FederatedScheduler,
    level: CriticalityLevel,
    job: &Job,
    view: Sight,
    actions: Seq<Action>,
    after: FederatedScheduler,
)
    requires
        mind.answers_change(level, job, view, actions, &after),
    ensures
        drops_waiting(actions, level, view),
{
    lemma_change(level, view);
}

/// Where the level rises, Gang scheduling drops exactly the waiting jobs of low
/// criticality; where it falls, it does nothing.
pub proof fn law_gang_drops_low_jobs(
    mind: GangScheduler,
    level: CriticalityLevel,
    job: &Job,
    view: Sight,
    actions: Seq<Action>,
    after: GangScheduler,
)
    requires
        mind.answers_change(level, job, view, actions, &after),
    ensures
        drops_waiting(actions, level, view),
{
    lemma_change(level, view);
}

/// Where the level rises, HEFT drops exactly the waiting jobs of low
/// criticality; where it falls, it does nothing.
pub proof fn law_heft_drops_low_jobs(
    mind: HeftScheduler,
    level: CriticalityLevel,
    job: &Job,
    view: Sight,
    actions: Seq<Action>,
    after: HeftScheduler,
)
    requires
        mind.answers_change(level, job, view, actions, &after),
    ensures
        drops_waiting(actions, level, view),
{
    lemma_change(level, view);
}

/// Where the level rises, LLF drops exactly the waiting jobs of low
/// criticality; where it falls, it does nothing.
pub proof fn law_llf_drops_low_jobs(
    mind: LlfScheduler,
    level: CriticalityLevel,
    job: &Job,
    view: Sight,
    actions: Seq<Action>,
    after: LlfScheduler,
)
    requires
        mind.answers_change(level, job, view, actions, &after),
    ensures
        drops_waiting(actions, level, view),
{
    lemma_change(level, view);
}

/// Where the level rises, CP-EDF drops exactly the waiting jobs of low
/// criticality; where it falls, it does nothing.
pub proof fn law_cpedf_drops_low_jobs(
    mind: CpEdfScheduler,
    level: CriticalityLevel,
    job: &Job,
    view: Sight,
    actions: Seq<Action>,
    after: CpEdfScheduler,
)
    requires
        mind.answers_change(level, job, view, actions, &after),
    ensures
        drops_waiting(actions, level, view),
{
    lemma_change(level, view);
}

/// Where the level rises, XSched drops exactly the waiting jobs of low
/// criticality, if any; where it falls, it does nothing.
pub proof fn law_xsched_drops_low_jobs(
    mind: XSchedScheduler,
    level: CriticalityLevel,
    job: &Job,
    view: Sight,
    actions: Seq<Action>,
    after: XSchedScheduler,
)
    requires
        mind.answers_change(level, job, view, actions, &after),
    ensures
        drops_waiting_or_rests(actions, level, view),
{
    lemma_change(level, view);
}

/// Where the level rises, GPreempt drops exactly the waiting jobs of low
/// criticality, if any; where it falls, it does nothing.
pub proof fn law_gpreempt_drops_low_jobs(
    mind: GPreemptScheduler,
    level: CriticalityLevel,
    job: &Job,
    view: Sight,
    actions: Seq<Action>,
    after: GPreemptScheduler,
)
    requires
        mind.answers_change(level, job, view, actions, &after),
    ensures
        drops_waiting_or_rests(actions, level, view),
{
    lemma_change(level, view);
}

/// Where the level rises, Preemptive GPU priority scheduling drops exactly the
/// waiting jobs of low criticality, if any; where it falls, it does nothing.
pub proof fn law_gpu_priority_drops_low_jobs(
    mind: GpuPreemptivePriorityScheduler,
    level: CriticalityLevel,
    job: &Job,
    view: Sight,
    actions: Seq<Action>,
    after: GpuPreemptivePriorityScheduler,
)
    requires
        mind.answers_change(level, job, view, actions, &after),
    ensures
        drops_waiting_or_rests(actions, level, view),
{
    lemma_change(level, view);
}

/// Where the level rises, RTGPU drops exactly the waiting jobs of low
/// criticality, if any; where it falls, it does nothing.
pub proof fn law_rtgpu_drops_low_jobs(
    mind: RtgpuScheduler,
    level: CriticalityLevel,
    job: &Job,
    view: Sight,
    actions: Seq<Action>,
    after: RtgpuScheduler,
)
    requires
        mind.answers_change(level, job, view, actions, &after),
    ensures
        drops_waiting_or_rests(actions, level, view),
{
    lemma_change(level, view);
}

/// Where the level rises, MATCH drops exactly the waiting jobs of low
/// criticality, if any; where it falls, it does nothing.
pub proof fn law_match_drops_low_jobs(
    mind: MatchScheduler,
    level: CriticalityLevel,
    job: &Job,
    view: Sight,
    actions: Seq<Action>,
    after: MatchScheduler,
)
    requires
        mind.answers_change(level, job, view, actions, &after),
    ensures
        drops_waiting_or_rests(actions, level, view),
{
    lemma_change(level, view);
}

/// Where the level rises, EDF-VD drops exactly the jobs of low criticality
/// that run or wait, each once and in the order of their ids; where it falls,
/// or there are none, it does nothing.
pub proof fn law_edfvd_drops_low_jobs(
    mind: EdfVdScheduler,
    level: CriticalityLevel,
    job: &Job,
    view: Sight,
    actions: Seq<Action>,
    after: EdfVdScheduler,
)
    requires
        mind.answers_change(level, job, view, actions, &after),
    ensures
        level is Lo ==> only(actions, Action::NoOp),
        level is Hi ==> forall|id: JobId|
            low_runs(view, id) || low_waits(view, id) <==> #[trigger] actions.contains(
                Action::DropJob { job_id: id },
            ),
        level is Hi ==> only(actions, Action::NoOp) || forall|i: int, j: int|
            0 <= i < j < actions.len() ==> ((#[trigger] actions[i]) matches Action::DropJob {
                job_id: a,
            } && (#[trigger] actions[j]) matches Action::DropJob { job_id: b } && a.0 < b.0),
{
    if level is Hi {
        let ids = choose|ids: Seq<u64>| #[trigger]
            tables::ascending(ids) && (forall|id: u64| #[trigger]
                ids.contains(id) <==> edfvd::shows_lo(view, id)) && actions == if ids.len() == 0 {
                seq![Action::NoOp]
            } else {
                edfvd::drops_of(ids)
            };
        assert forall|id: JobId|
            low_runs(view, id) || low_waits(view, id) <==> #[trigger] actions.contains(
                Action::DropJob { job_id: id },
            ) by {
            lemma_shows(view, id);
            if ids.contains(id.0) {
                let k = choose|k: int| 0 <= k < ids.len() && ids[k] == id.0;
                assert(actions[k] == Action::DropJob { job_id: JobId(ids[k]) });
                assert(JobId(id.0) == id);
            }
            if actions.contains(Action::DropJob { job_id: id }) {
                let k = choose|k: int|
                    0 <= k < actions.len() && actions[k] == Action::DropJob { job_id: id };
                assert(ids.len() > 0);
                assert(actions[k] == Action::DropJob { job_id: JobId(ids[k]) });
                assert(ids.contains(id.0));
            }
        }
    }
}

pub(crate) proof fn lemma_running_list(view: Sight, r: RunningJobInfo)
    ensures
        tables::running_list(view.running_jobs).contains(r) <==> exists|i: int|
            0 <= i < view.running_jobs.len() && (#[trigger] view.running_jobs[i]).1 == Some(r),
    decreases view.running_jobs.len(),
{
    let entries = view.running_jobs;
    if entries.len() > 0 {
        let rest = Sight { running_jobs: entries.drop_last(), ..view };
        lemma_running_list(rest, r);
        if let Some(s) = entries.last().1 {
            search::lemma_push(tables::running_list(rest.running_jobs), s, r);
        }
        if exists|i: int| 0 <= i < entries.len() && (#[trigger] entries[i]).1 == Some(r) {
            let i = choose|i: int| 0 <= i < entries.len() && (#[trigger] entries[i]).1 == Some(r);
            if i < rest.running_jobs.len() {
                assert(rest.running_jobs[i].1 == Some(r));
            }
        }
        if exists|i: int|
            0 <= i < rest.running_jobs.len() && (#[trigger] rest.running_jobs[i]).1 == Some(r) {
            let i = choose|i: int|
                0 <= i < rest.running_jobs.len() && (#[trigger] rest.running_jobs[i]).1 == Some(r);
            assert(entries[i].1 == Some(r));
        }
        assert(entries[entries.len() - 1] == entries.last());
    }
}

pub(crate) proof fn lemma_waiting_list(view: Sight, q: QueuedJobInfo)
    ensures
        tables::waiting_list(view.ready_queues).contains(q) <==> exists|i: int, k: int|
            0 <= i < view.ready_queues.len() && 0 <= k < view.ready_queues[i].1.len() && (
            #[trigger] view.ready_queues[i].1[k]) == q,
    decreases view.ready_queues.len(),
{
    let queues = view.ready_queues;
    if queues.len() > 0 {
        let rest = Sight { ready_queues: queues.drop_last(), ..view };
        let last = queues.last().1;
        lemma_waiting_list(rest, q);
        search::lemma_sum(tables::waiting_list(rest.ready_queues), last, q);
        if exists|i: int, k: int|
            0 <= i < queues.len() && 0 <= k < queues[i].1.len() && (#[trigger] queues[i].1[k])
                == q {
            let (i, k) = choose|i: int, k: int|
                0 <= i < queues.len() && 0 <= k < queues[i].1.len() && (
                #[trigger] queues[i].1[k]) == q;
            if i < rest.ready_queues.len() {
                assert(rest.ready_queues[i].1[k] == q);
            } else {
                assert(last[k] == q);
            }
        }
        if exists|i: int, k: int|
            0 <= i < rest.ready_queues.len() && 0 <= k < rest.ready_queues[i].1.len() && (
            #[trigger] rest.ready_queues[i].1[k]) == q {
            let (i, k) = choose|i: int, k: int|
                0 <= i < rest.ready_queues.len() && 0 <= k < rest.ready_queues[i].1.len() && (
                #[trigger] rest.ready_queues[i].1[k]) == q;
            assert(queues[i].1[k] == q);
        }
        if last.contains(q) {
            let k = choose|k: int| 0 <= k < last.len() && last[k] == q;
            assert(queues[queues.len() - 1].1[k] == q);
        }
    }
}

proof fn lemma_shows(view: Sight, id: JobId)
    ensures
        edfvd::shows_lo(view, id.0) <==> low_runs(view, id) || low_waits(view, id),
{
    let running = tables::running_list(view.running_jobs);
    let waiting = tables::waiting_list(view.ready_queues);
    if edfvd::lo_runs(running, id.0) {
        let k = choose|k: int|
            0 <= k < running.len() && (#[trigger] running[k]).job_id.0 == id.0
                && running[k].criticality is Lo;
        assert(running.contains(running[k]));
        lemma_running_list(view, running[k]);
        assert(running[k].job_id == id);
    }
    if edfvd::lo_waits(waiting, id.0) {
        let k = choose|k: int|
            0 <= k < waiting.len() && (#[trigger] waiting[k]).job_id.0 == id.0
                && waiting[k].criticality is Lo;
        assert(waiting.contains(waiting[k]));
        lemma_waiting_list(view, waiting[k]);
        assert(waiting[k].job_id == id);
    }
    if low_runs(view, id) {
        let i = choose|i: int|
            0 <= i < view.running_jobs.len() && ((#[trigger] view.running_jobs[i]).1 matches Some(
                r,
            ) && r.job_id == id && r.criticality is Lo);
        let r = view.running_jobs[i].1->0;
        lemma_running_list(view, r);
        let k = choose|k: int| 0 <= k < running.len() && running[k] == r;
        assert(running[k].job_id.0 == id.0);
    }
    if low_waits(view, id) {
        let (i, k) = choose|i: int, k: int|
            0 <= i < view.ready_queues.len() && 0 <= k < view.ready_queues[i].1.len() && (
            #[trigger] view.ready_queues[i].1[k]).job_id == id
                && view.ready_queues[i].1[k].criticality is Lo;
        let q = view.ready_queues[i].1[k];
        lemma_waiting_list(view, q);
        let n = choose|n: int| 0 <= n < waiting.len() && waiting[n] == q;
        assert(waiting[n].job_id.0 == id.0);
    }
}

} // verus!

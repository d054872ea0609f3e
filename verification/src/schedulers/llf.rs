//! Least laxity first.

use crate::ids::DeviceId;
use crate::job::Job;
use crate::scheduler::{
    self, Action, QueuedJobInfo, ReevaluationPolicy, ReevaluationTrigger, RunningJobInfo, Scheduler,
    SchedulerView, Sight,
};
use crate::schedulers::progress::{Progress, ProgressTracker};
use crate::schedulers::{fixed_priority, placement, rank};
use crate::select::{self, Key};
use crate::task::{CriticalityLevel, DeviceType, ExecutionTimeModel, Task};
use vstd::prelude::*;

verus! {

/// Least-Laxity-First scheduler for heterogeneous devices.
#[derive(Debug, Clone)]
pub struct LlfScheduler {
    reevaluation_policy: ReevaluationPolicy,
    tracker: ProgressTracker,
}

/// Time to the deadline that is not needed for the remaining work.
pub open spec fn laxity_of(now: u64, deadline: u64, remaining: u64) -> int {
    deadline - now - remaining
}

/// The smallest WCET of a list of models, zero for an empty list.
pub open spec fn least_wcet(times: Seq<(DeviceType, ExecutionTimeModel)>) -> u64
    decreases times.len(),
{
    if times.len() == 0 {
        0
    } else if times.len() == 1 {
        times[0].1.worst()
    } else {
        let rest = least_wcet(times.drop_last());
        if times.last().1.worst() < rest {
            times.last().1.worst()
        } else {
            rest
        }
    }
}

/// The work to assume for a job: its execution time where that is known, else
/// the smallest WCET of its task.
pub open spec fn total_work(job: &Job, task: &Task) -> u64 {
    match job.actual_exec_ns {
        Some(ns) => ns,
        None => least_wcet(task.exec_times@),
    }
}

/// Key of a waiting job: laxity, deadline, release, id.
pub open spec fn waiting_key(q: QueuedJobInfo, p: Progress, now: u64) -> Key {
    Key {
        k0: laxity_of(now, q.absolute_deadline, p.remaining_of(q.job_id.0)) as i128,
        k1: q.absolute_deadline as i128,
        k2: q.release_time as i128,
        k3: q.job_id.0 as i128,
        k4: 0,
        k5: 0,
    }
}

/// Keys of a queue.
pub open spec fn waiting_keys(queue: Seq<QueuedJobInfo>, p: Progress, now: u64) -> Seq<Key> {
    Seq::new(queue.len(), |i: int| waiting_key(queue[i], p, now))
}

/// The waiting job with the least laxity.
pub open spec fn best_laxity(queue: Seq<QueuedJobInfo>, p: Progress, now: u64) -> Option<
    QueuedJobInfo,
> {
    select::item_at(queue, select::least(waiting_keys(queue, p, now)))
}

/// The laxity of a running job.
pub open spec fn running_laxity_of(r: RunningJobInfo, p: Progress, now: u64) -> int {
    laxity_of(now, r.absolute_deadline, p.remaining_of(r.job_id.0))
}

/// What an arriving job does, with the progress `p` after its arrival: the
/// least loaded compatible device takes it, at once where its laxity is
/// smaller than that of the running job.
pub open spec fn arrival(job: &Job, task: &Task, view: Sight, p: Progress) -> Seq<
    Action,
> {
    match placement::least_loaded(view, view.compatible_with(task), true) {
        Some(d) => rank::place(
            job,
            d,
            view.running_at(d),
            view.running_at(d) matches Some(r) && laxity_of(
                view.now,
                job.absolute_deadline,
                p.remaining_of(job.id.0),
            ) < running_laxity_of(r, p, view.now),
        ),
        None => seq![Action::NoOp],
    }
}

/// Whether the waiting job with the least laxity has less of it than the
/// running job of a device.
pub open spec fn overtakes(w: QueuedJobInfo, r: RunningJobInfo, p: Progress, now: u64) -> bool {
    laxity_of(now, w.absolute_deadline, p.remaining_of(w.job_id.0)) < running_laxity_of(r, p, now)
}

/// What happens at a preemption point, with the progress `p` of that time.
pub open spec fn point(d: DeviceId, running: &Job, view: Sight, p: Progress) -> Seq<
    Action,
> {
    match (view.running_at(d), best_laxity(view.waiting_at(d), p, view.now)) {
        (Some(r), Some(w)) if overtakes(w, r, p, view.now) => seq![
            Action::Preempt { victim: running.id, by: w.job_id, device_id: d },
        ],
        _ => seq![Action::NoOp],
    }
}

/// The preemptions that a reevaluation asks for: on each listed device whose
/// running job has more laxity than the best waiting one.
pub open spec fn reevaluated(
    entries: Seq<(DeviceId, Option<RunningJobInfo>)>,
    view: Sight,
    p: Progress,
) -> Seq<Action>
    decreases entries.len(),
{
    if entries.len() == 0 {
        Seq::empty()
    } else {
        let rest = reevaluated(entries.drop_last(), view, p);
        let d = entries.last().0;
        match (entries.last().1, best_laxity(view.waiting_at(d), p, view.now)) {
            (Some(r), Some(w)) if overtakes(w, r, p, view.now) => rest.push(
                Action::Preempt { victim: r.job_id, by: w.job_id, device_id: d },
            ),
            _ => rest,
        }
    }
}

impl LlfScheduler {
    /// What the scheduler knows of the remaining work of jobs.
    pub closed spec fn progress(&self) -> Progress {
        self.tracker.view()
    }

    /// The reevaluation policy.
    pub closed spec fn policy(&self) -> ReevaluationPolicy {
        self.reevaluation_policy
    }

    /// A scheduler that knows no job.
    pub fn new(reevaluation_policy: ReevaluationPolicy) -> (s: Self)
        ensures
            s.policy() == reevaluation_policy,
            s.progress().remaining == Map::<u64, u64>::empty(),
            s.progress().elapsed == Map::<u64, u64>::empty(),
    {
        LlfScheduler { reevaluation_policy, tracker: ProgressTracker::new() }
    }

    /// Computes the work to assume for a job.
    fn estimate_total_work_ns(job: &Job, task: &Task) -> (work: u64)
        ensures
            work == total_work(job, task),
    {
        match job.actual_exec_ns {
            Some(ns) => ns,
            None => {
                if task.exec_times.len() == 0 {
                    return 0;
                }
                let mut least: u64 = task.exec_times[0].1.wcet();
                let mut i: usize = 1;
                while i < task.exec_times.len()
                    invariant
                        1 <= i <= task.exec_times@.len(),
                        least == least_wcet(task.exec_times@.take(i as int)),
                    decreases task.exec_times@.len() - i,
                {
                    let wcet: u64 = task.exec_times[i].1.wcet();
                    if wcet < least {
                        least = wcet;
                    }
                    proof {
                        assert(task.exec_times@.take(i as int + 1).drop_last()
                            =~= task.exec_times@.take(i as int));
                    }
                    i = i + 1;
                }
                proof {
                    assert(task.exec_times@.take(i as int) =~= task.exec_times@);
                }
                least
            },
        }
    }

    /// Computes the laxity of a job.
    fn laxity(now: u64, absolute_deadline: u64, remaining_work: u64) -> (laxity: i128)
        ensures
            laxity == laxity_of(now, absolute_deadline, remaining_work),
    {
        absolute_deadline as i128 - now as i128 - remaining_work as i128
    }

    /// Computes the laxity of a running job.
    fn running_laxity(&self, r: &RunningJobInfo, now: u64) -> (laxity: i128)
        ensures
            laxity == running_laxity_of(*r, self.progress(), now),
    {
        Self::laxity(now, r.absolute_deadline, self.tracker.remaining(r.job_id.0))
    }

    /// Computes the laxity of a waiting job.
    fn waiting_laxity(&self, q: &QueuedJobInfo, now: u64) -> (laxity: i128)
        ensures
            laxity == laxity_of(now, q.absolute_deadline, self.progress().remaining_of(q.job_id.0)),
    {
        Self::laxity(now, q.absolute_deadline, self.tracker.remaining(q.job_id.0))
    }

    /// Finds the waiting job of a device with the least laxity.
    fn best_waiting_job(&self, d: DeviceId, view: &SchedulerView<'_>) -> (next: Option<
        QueuedJobInfo,
    >)
        ensures
            next == best_laxity(view.waiting_at(d), self.progress(), view.now),
    {
        let queue: &Vec<QueuedJobInfo> = match view.queue_for_device(d) {
            Some(q) => q,
            None => {
                return None;
            },
        };
        let mut keys: Vec<Key> = Vec::new();
        let mut i: usize = 0;
        while i < queue.len()
            invariant
                i <= queue@.len(),
                keys@.len() == i,
                forall|j: int|
                    0 <= j < i ==> #[trigger] keys@[j] == waiting_key(
                        queue@[j],
                        self.progress(),
                        view.now,
                    ),
            decreases queue@.len() - i,
        {
            let q: QueuedJobInfo = queue[i];
            keys.push(
                Key {
                    k0: self.waiting_laxity(&q, view.now),
                    k1: q.absolute_deadline as i128,
                    k2: q.release_time as i128,
                    k3: q.job_id.0 as i128,
                    k4: 0,
                    k5: 0,
                },
            );
            i = i + 1;
        }
        proof {
            assert(keys@ =~= waiting_keys(queue@, self.progress(), view.now));
        }
        match select::find_least(&keys) {
            Some(at) => Some(queue[at]),
            None => None,
        }
    }
}

impl Default for LlfScheduler {
    fn default() -> (s: Self)
        ensures
            s.policy() == (ReevaluationPolicy::Hybrid { interval_ns: 5_000, min_interval_ns: 1_000 }),
            s.progress().remaining == Map::<u64, u64>::empty(),
            s.progress().elapsed == Map::<u64, u64>::empty(),
    {
        Self::new(ReevaluationPolicy::Hybrid { interval_ns: 5_000, min_interval_ns: 1_000 })
    }
}

impl Scheduler for LlfScheduler {
    open spec fn alike(&self, other: &Self) -> bool {
        self.policy() == other.policy() && self.progress() == other.progress()
    }

    open spec fn wants(&self, policy: ReevaluationPolicy) -> bool {
        policy == self.policy()
    }

    open spec fn answers_arrival(
        &self,
        job: &Job,
        task: &Task,
        view: Sight,
        actions: Seq<Action>,
        after: &Self,
    ) -> bool {
        &&& after.policy() == self.policy()
        &&& after.progress() =~= self.progress().observed(view).assigned(
            job.id.0,
            total_work(job, task),
        )
        &&& actions =~= arrival(job, task, view, after.progress())
    }

    open spec fn answers_completion(
        &self,
        job: &Job,
        device_id: DeviceId,
        view: Sight,
        actions: Seq<Action>,
        after: &Self,
    ) -> bool {
        &&& after.policy() == self.policy()
        &&& after.progress() =~= self.progress().observed(view).forgotten(job.id.0)
        &&& actions =~= rank::dispatch_of(
            best_laxity(view.waiting_at(device_id), after.progress(), view.now),
            device_id,
        )
    }

    open spec fn answers_point(
        &self,
        device_id: DeviceId,
        running_job: &Job,
        view: Sight,
        actions: Seq<Action>,
        after: &Self,
    ) -> bool {
        &&& after.policy() == self.policy()
        &&& after.progress() =~= self.progress().observed(view)
        &&& actions =~= point(device_id, running_job, view, after.progress())
    }

    open spec fn answers_change(
        &self,
        new_level: CriticalityLevel,
        trigger_job: &Job,
        view: Sight,
        actions: Seq<Action>,
        after: &Self,
    ) -> bool {
        &&& after.policy() == self.policy()
        &&& after.progress() =~= self.progress().observed(view)
        &&& actions =~= fixed_priority::criticality_change(new_level, view)
    }

    open spec fn answers_idle(
        &self,
        device_id: DeviceId,
        view: Sight,
        actions: Seq<Action>,
        after: &Self,
    ) -> bool {
        actions =~= scheduler::head_dispatch(view.waiting_at(device_id), device_id) && *after
            == *self
    }

    open spec fn answers_reevaluation(
        &self,
        trigger: ReevaluationTrigger,
        view: Sight,
        actions: Seq<Action>,
        after: &Self,
    ) -> bool {
        &&& after.policy() == self.policy()
        &&& after.progress() =~= self.progress().observed(view)
        &&& actions =~= scheduler::or_no_op(
            reevaluated(view.running_jobs, view, after.progress()),
        )
    }

    fn name(&self) -> (name: &str)
        ensures
            name@ == "LLF-Het"@,
    {
        "LLF-Het"
    }

    fn reevaluation_policy(&self) -> (policy: ReevaluationPolicy)
        ensures
            policy == self.policy(),
    {
        self.reevaluation_policy
    }

    fn on_job_arrival(&mut self, job: &Job, task: &Task, view: &SchedulerView<'_>) -> (actions: Vec<
        Action,
    >)
        ensures
            final(self).policy() == old(self).policy(),
            final(self).progress() == old(self).progress().observed(view@).assigned(
                job.id.0,
                total_work(job, task),
            ),
            actions@ == arrival(job, task, view@, final(self).progress()),
    {
        self.tracker.observe(view);
        self.tracker.assign(job.id.0, Self::estimate_total_work_ns(job, task));
        let ids: Vec<DeviceId> = view.compatible_devices(task);
        match placement::pick_least_loaded(view, &ids, true) {
            Some(d) => {
                let running: Option<RunningJobInfo> = view.running_on_device(d);
                let preempts: bool = match running {
                    Some(r) => {
                        let incoming: i128 = Self::laxity(
                            view.now,
                            job.absolute_deadline,
                            self.tracker.remaining(job.id.0),
                        );
                        incoming < self.running_laxity(&r, view.now)
                    },
                    None => false,
                };
                rank::place_job(job, d, running, preempts)
            },
            None => vec![Action::NoOp],
        }
    }

    fn on_job_complete(
        &mut self,
        job: &Job,
        device_id: DeviceId,
        view: &SchedulerView<'_>,
    ) -> (actions: Vec<Action>)
        ensures
            final(self).policy() == old(self).policy(),
            final(self).progress() == old(self).progress().observed(view@).forgotten(job.id.0),
            actions@ == rank::dispatch_of(
                best_laxity(view.waiting_at(device_id), final(self).progress(), view.now),
                device_id,
            ),
    {
        self.tracker.observe(view);
        self.tracker.forget(job.id.0);
        rank::dispatch_next(self.best_waiting_job(device_id, view), device_id)
    }

    fn on_preemption_point(
        &mut self,
        device_id: DeviceId,
        running_job: &Job,
        view: &SchedulerView<'_>,
    ) -> (actions: Vec<Action>)
        ensures
            final(self).policy() == old(self).policy(),
            final(self).progress() == old(self).progress().observed(view@),
            actions@ == point(device_id, running_job, view@, final(self).progress()),
    {
        self.tracker.observe(view);
        match (view.running_on_device(device_id), self.best_waiting_job(device_id, view)) {
            (Some(r), Some(w)) => {
                if self.waiting_laxity(&w, view.now) < self.running_laxity(&r, view.now) {
                    vec![Action::Preempt { victim: running_job.id, by: w.job_id, device_id }]
                } else {
                    vec![Action::NoOp]
                }
            },
            _ => vec![Action::NoOp],
        }
    }

    fn on_criticality_change(
        &mut self,
        new_level: CriticalityLevel,
        _trigger_job: &Job,
        view: &SchedulerView<'_>,
    ) -> (actions: Vec<Action>)
        ensures
            final(self).policy() == old(self).policy(),
            final(self).progress() == old(self).progress().observed(view@),
            actions@ == fixed_priority::criticality_change(new_level, view@),
    {
        self.tracker.observe(view);
        fixed_priority::change_criticality(new_level, view)
    }

    fn on_device_idle(&mut self, device_id: DeviceId, view: &SchedulerView<'_>) -> (actions: Vec<
        Action,
    >)
        ensures
            actions@ == scheduler::head_dispatch(view.waiting_at(device_id), device_id),
            *final(self) == *old(self),
    {
        scheduler::dispatch_head(device_id, view)
    }

    fn on_reevaluation(
        &mut self,
        _trigger: ReevaluationTrigger,
        view: &SchedulerView<'_>,
    ) -> (actions: Vec<Action>)
        ensures
            final(self).policy() == old(self).policy(),
            final(self).progress() == old(self).progress().observed(view@),
            actions@ == scheduler::or_no_op(
                reevaluated(view@.running_jobs, view@, final(self).progress()),
            ),
    {
        self.tracker.observe(view);
        let mut actions: Vec<Action> = Vec::new();
        let ghost before = *self;
        let mut i: usize = 0;
        while i < view.running_jobs.len()
            invariant
                i <= view@.running_jobs.len(),
                *self == before,
                actions@ == reevaluated(
                    view@.running_jobs.take(i as int),
                    view@,
                    before.progress(),
                ),
            decreases view@.running_jobs.len() - i,
        {
            proof {
                assert(view@.running_jobs.take(i as int + 1).drop_last()
                    =~= view@.running_jobs.take(i as int));
            }
            let d: DeviceId = view.running_jobs[i].0;
            match (view.running_jobs[i].1, self.best_waiting_job(d, view)) {
                (Some(r), Some(w)) => {
                    if self.waiting_laxity(&w, view.now) < self.running_laxity(&r, view.now) {
                        actions.push(
                            Action::Preempt { victim: r.job_id, by: w.job_id, device_id: d },
                        );
                    }
                },
                _ => {},
            }
            i = i + 1;
        }
        proof {
            assert(view@.running_jobs.take(i as int) =~= view@.running_jobs);
        }
        scheduler::actions_or_no_op(actions)
    }
}

/// The waiting job that is chosen has the least laxity of its queue.
pub proof fn law_best_laxity_is_least(queue: Seq<QueuedJobInfo>, p: Progress, now: u64)
    ensures
        best_laxity(queue, p, now) is None <==> queue.len() == 0,
        best_laxity(queue, p, now) matches Some(b) ==> {
            &&& queue.contains(b)
            &&& forall|i: int|
                0 <= i < queue.len() ==> laxity_of(
                    now,
                    b.absolute_deadline,
                    p.remaining_of(b.job_id.0),
                ) <= laxity_of(
                    now,
                    (#[trigger] queue[i]).absolute_deadline,
                    p.remaining_of(queue[i].job_id.0),
                )
        },
{
    let keys = waiting_keys(queue, p, now);
    select::law_least_is_first_minimum(keys);
    if let Some(at) = select::least(keys) {
        let b = queue[at];
        assert(best_laxity(queue, p, now) == Some(b));
        assert forall|i: int| 0 <= i < queue.len() implies laxity_of(
            now,
            b.absolute_deadline,
            p.remaining_of(b.job_id.0),
        ) <= laxity_of(
            now,
            (#[trigger] queue[i]).absolute_deadline,
            p.remaining_of(queue[i].job_id.0),
        ) by {
            assert(!keys[i].less(keys[at]));
        }
    }
}

} // verus!

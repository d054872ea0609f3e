//! Earliest deadline first with virtual deadlines for mixed criticality.

use crate::arith;
use crate::ids::{DeviceId, JobId};
use crate::job::Job;
use crate::scheduler::{
    self, Action, QueuedJobInfo, ReevaluationPolicy, ReevaluationTrigger, RunningJobInfo, Scheduler,
    SchedulerView, Sight,
};
use crate::schedulers::{placement, rank, tables};
use crate::select::{self, Key};
use crate::task::{CriticalityLevel, Task};
use crate::time::Nanos;
use vstd::prelude::*;

verus! {

/// Default numerator of the virtual deadline ratio.
pub const DEFAULT_VIRTUAL_DEADLINE_NUM: u64 = 1;

/// Default denominator of the virtual deadline ratio.
pub const DEFAULT_VIRTUAL_DEADLINE_DEN: u64 = 2;

/// EDF-VD scheduler for mixed-criticality systems.
#[derive(Debug, Clone, Copy)]
pub struct EdfVdScheduler {
    virtual_deadline_num: u64,
    virtual_deadline_den: u64,
}

/// Whether jobs of a criticality are served in a mode.
pub open spec fn served(criticality: CriticalityLevel, mode: CriticalityLevel) -> bool {
    !(mode is Hi && criticality is Lo)
}

/// The deadline to order by: in low mode, high-criticality jobs have their
/// relative deadline shortened to `num / den` of it.
pub open spec fn virtual_deadline(
    num: u64,
    den: u64,
    criticality: CriticalityLevel,
    release: u64,
    deadline: u64,
    mode: CriticalityLevel,
) -> u64 {
    if mode is Lo && criticality is Hi {
        arith::sat_add(
            release,
            (arith::sat_mul(arith::sat_sub(deadline, release), num) as int / den as int) as u64,
        )
    } else {
        deadline
    }
}

/// Key of a waiting job: virtual deadline, deadline, release, id.
pub open spec fn waiting_key(num: u64, den: u64, q: QueuedJobInfo, mode: CriticalityLevel) -> Key {
    Key {
        k0: virtual_deadline(
            num,
            den,
            q.criticality,
            q.release_time,
            q.absolute_deadline,
            mode,
        ) as i128,
        k1: q.absolute_deadline as i128,
        k2: q.release_time as i128,
        k3: q.job_id.0 as i128,
        k4: 0,
        k5: 0,
    }
}

/// The jobs of a queue that are served in a mode.
pub open spec fn served_of(queue: Seq<QueuedJobInfo>, mode: CriticalityLevel) -> Seq<QueuedJobInfo>
    decreases queue.len(),
{
    if queue.len() == 0 {
        Seq::empty()
    } else {
        let rest = served_of(queue.drop_last(), mode);
        if served(queue.last().criticality, mode) {
            rest.push(queue.last())
        } else {
            rest
        }
    }
}

/// Keys of waiting jobs.
pub open spec fn waiting_keys(
    num: u64,
    den: u64,
    queue: Seq<QueuedJobInfo>,
    mode: CriticalityLevel,
) -> Seq<Key> {
    Seq::new(queue.len(), |i: int| waiting_key(num, den, queue[i], mode))
}

/// The waiting job that is served first in a mode.
pub open spec fn best_virtual(
    num: u64,
    den: u64,
    queue: Seq<QueuedJobInfo>,
    mode: CriticalityLevel,
) -> Option<QueuedJobInfo> {
    let list = served_of(queue, mode);
    select::item_at(list, select::least(waiting_keys(num, den, list, mode)))
}

/// Whether an arriving job goes before a running one.
pub open spec fn goes_before(
    num: u64,
    den: u64,
    job: &Job,
    task: &Task,
    r: RunningJobInfo,
    mode: CriticalityLevel,
) -> bool {
    let incoming = virtual_deadline(
        num,
        den,
        task.criticality,
        job.release_time,
        job.absolute_deadline,
        mode,
    );
    let current = virtual_deadline(
        num,
        den,
        r.criticality,
        r.release_time,
        r.absolute_deadline,
        mode,
    );
    incoming < current || (incoming == current && rank::deadline_key(
        job.absolute_deadline,
        job.release_time,
        job.id.0,
    ).less(rank::deadline_key(r.absolute_deadline, r.release_time, r.job_id.0)))
}

/// What an arriving job does. Low-criticality arrivals are dropped in high
/// mode; so is a low-criticality job that still runs on the chosen device.
pub open spec fn arrival(
    num: u64,
    den: u64,
    job: &Job,
    task: &Task,
    view: Sight,
) -> Seq<Action> {
    let mode = view.criticality_level;
    if !served(task.criticality, mode) {
        seq![Action::DropJob { job_id: job.id }]
    } else {
        match placement::least_loaded(view, view.compatible_with(task), true) {
            None => seq![Action::NoOp],
            Some(d) => match view.running_at(d) {
                Some(r) if !served(r.criticality, mode) => seq![
                    Action::DropJob { job_id: r.job_id },
                    Action::Dispatch { job_id: job.id, device_id: d },
                ],
                running => rank::place(
                    job,
                    d,
                    running,
                    running matches Some(r) && goes_before(num, den, job, task, r, mode),
                ),
            },
        }
    }
}

/// What happens at a preemption point.
pub open spec fn point(
    num: u64,
    den: u64,
    d: DeviceId,
    running: &Job,
    view: Sight,
) -> Seq<Action> {
    let mode = view.criticality_level;
    match (view.running_at(d), best_virtual(num, den, view.waiting_at(d), mode)) {
        (Some(r), Some(w)) => if !served(r.criticality, mode) {
            seq![
                Action::DropJob { job_id: r.job_id },
                Action::Dispatch { job_id: w.job_id, device_id: d },
            ]
        } else if virtual_deadline(
            num,
            den,
            w.criticality,
            w.release_time,
            w.absolute_deadline,
            mode,
        ) < virtual_deadline(num, den, r.criticality, r.release_time, r.absolute_deadline, mode) {
            seq![Action::Preempt { victim: running.id, by: w.job_id, device_id: d }]
        } else {
            seq![Action::NoOp]
        },
        _ => seq![Action::NoOp],
    }
}

/// Whether a low-criticality job of an id runs or waits.
pub open spec fn shows_lo(view: Sight, id: u64) -> bool {
    lo_runs(tables::running_list(view.running_jobs), id) || lo_waits(
        tables::waiting_list(view.ready_queues),
        id,
    )
}

/// Whether a list of running jobs holds a low-criticality one of an id.
pub open spec fn lo_runs(list: Seq<RunningJobInfo>, id: u64) -> bool {
    exists|i: int|
        0 <= i < list.len() && (#[trigger] list[i]).job_id.0 == id && list[i].criticality is Lo
}

/// Whether a list of waiting jobs holds a low-criticality one of an id.
pub open spec fn lo_waits(list: Seq<QueuedJobInfo>, id: u64) -> bool {
    exists|i: int|
        0 <= i < list.len() && (#[trigger] list[i]).job_id.0 == id && list[i].criticality is Lo
}

/// Drop actions for a list of ids.
pub open spec fn drops_of(ids: Seq<u64>) -> Seq<Action> {
    Seq::new(ids.len(), |i: int| Action::DropJob { job_id: JobId(ids[i]) })
}

/// Whether `actions` drop exactly the visible low-criticality jobs, each once
/// and in the order of their ids.
pub open spec fn drops_all_lo(actions: Seq<Action>, view: Sight) -> bool {
    exists|ids: Seq<u64>| #[trigger]
        tables::ascending(ids) && (forall|id: u64| #[trigger]
            ids.contains(id) <==> shows_lo(view, id)) && actions == if ids.len() == 0 {
            seq![Action::NoOp]
        } else {
            drops_of(ids)
        }
}

impl EdfVdScheduler {
    #[verifier::type_invariant]
    spec fn ratio_at_most_one(self) -> bool {
        0 < self.virtual_deadline_den && self.virtual_deadline_num <= self.virtual_deadline_den
    }

    /// Numerator of the virtual deadline ratio.
    pub closed spec fn num(&self) -> u64 {
        self.virtual_deadline_num
    }

    /// Denominator of the virtual deadline ratio.
    pub closed spec fn den(&self) -> u64 {
        self.virtual_deadline_den
    }

    /// A scheduler whose virtual deadlines are `num / den` of the relative
    /// ones.
    pub fn new(virtual_deadline_num: u64, virtual_deadline_den: u64) -> (s: Self)
        requires
            virtual_deadline_den > 0,
            virtual_deadline_num <= virtual_deadline_den,
        ensures
            s.num() == virtual_deadline_num,
            s.den() == virtual_deadline_den,
    {
        EdfVdScheduler { virtual_deadline_num, virtual_deadline_den }
    }

    /// Tells whether jobs of a criticality are served in a mode.
    fn is_schedulable_in_mode(criticality: CriticalityLevel, mode: CriticalityLevel) -> (yes: bool)
        ensures
            yes == served(criticality, mode),
    {
        !(mode == CriticalityLevel::Hi && criticality == CriticalityLevel::Lo)
    }

    /// Computes the deadline to order by.
    pub fn effective_deadline(
        &self,
        criticality: CriticalityLevel,
        release_time: Nanos,
        absolute_deadline: Nanos,
        mode: CriticalityLevel,
    ) -> (deadline: Nanos)
        ensures
            deadline == virtual_deadline(
                self.num(),
                self.den(),
                criticality,
                release_time,
                absolute_deadline,
                mode,
            ),
    {
        proof {
            use_type_invariant(self);
        }
        if mode == CriticalityLevel::Lo && criticality == CriticalityLevel::Hi {
            let relative: u64 = absolute_deadline.saturating_sub(release_time);
            let scaled: u64 = arith::saturating_mul(relative, self.virtual_deadline_num);
            release_time.saturating_add(scaled / self.virtual_deadline_den)
        } else {
            absolute_deadline
        }
    }

    /// Finds the waiting job of a device that is served first.
    fn best_waiting_job(&self, d: DeviceId, view: &SchedulerView<'_>) -> (next: Option<
        QueuedJobInfo,
    >)
        ensures
            next == best_virtual(
                self.num(),
                self.den(),
                view.waiting_at(d),
                view.criticality_level,
            ),
    {
        let queue: &Vec<QueuedJobInfo> = match view.queue_for_device(d) {
            Some(q) => q,
            None => {
                return None;
            },
        };
        let mode: CriticalityLevel = view.criticality_level;
        let mut list: Vec<QueuedJobInfo> = Vec::new();
        let mut keys: Vec<Key> = Vec::new();
        let mut i: usize = 0;
        while i < queue.len()
            invariant
                i <= queue@.len(),
                list@ == served_of(queue@.take(i as int), mode),
                keys@.len() == list@.len(),
                forall|j: int|
                    0 <= j < keys@.len() ==> #[trigger] keys@[j] == waiting_key(
                        self.num(),
                        self.den(),
                        list@[j],
                        mode,
                    ),
            decreases queue@.len() - i,
        {
            proof {
                assert(queue@.take(i as int + 1).drop_last() =~= queue@.take(i as int));
            }
            let q: QueuedJobInfo = queue[i];
            if Self::is_schedulable_in_mode(q.criticality, mode) {
                list.push(q);
                keys.push(
                    Key {
                        k0: self.effective_deadline(
                            q.criticality,
                            q.release_time,
                            q.absolute_deadline,
                            mode,
                        ) as i128,
                        k1: q.absolute_deadline as i128,
                        k2: q.release_time as i128,
                        k3: q.job_id.0 as i128,
                        k4: 0,
                        k5: 0,
                    },
                );
            }
            i = i + 1;
        }
        proof {
            assert(queue@.take(i as int) =~= queue@);
            assert(keys@ =~= waiting_keys(self.num(), self.den(), list@, mode));
        }
        match select::find_least(&keys) {
            Some(at) => Some(list[at]),
            None => None,
        }
    }
}

impl Default for EdfVdScheduler {
    fn default() -> (s: Self)
        ensures
            s.num() == DEFAULT_VIRTUAL_DEADLINE_NUM,
            s.den() == DEFAULT_VIRTUAL_DEADLINE_DEN,
    {
        Self::new(DEFAULT_VIRTUAL_DEADLINE_NUM, DEFAULT_VIRTUAL_DEADLINE_DEN)
    }
}

/// Lists the ids of the visible low-criticality jobs, ascending.
fn list_lo(view: &SchedulerView<'_>) -> (ids: Vec<u64>)
    ensures
        tables::ascending(ids@),
        forall|id: u64| #[trigger] ids@.contains(id) <==> shows_lo(view@, id),
{
    let running: Vec<RunningJobInfo> = tables::list_running(view);
    let waiting: Vec<QueuedJobInfo> = tables::list_waiting(view);
    let mut ids: Vec<u64> = Vec::new();
    let mut i: usize = 0;
    while i < running.len()
        invariant
            i <= running@.len(),
            tables::ascending(ids@),
            forall|id: u64| #[trigger]
                ids@.contains(id) <==> lo_runs(running@.take(i as int), id),
        decreases running@.len() - i,
    {
        let ghost before = ids@;
        let r: RunningJobInfo = running[i];
        let lo: bool = r.criticality == CriticalityLevel::Lo;
        if lo {
            tables::insert_ascending(&mut ids, r.job_id.0);
        }
        proof {
            let t = running@.take(i as int);
            let u = running@.take(i as int + 1);
            assert forall|id: u64| #[trigger] ids@.contains(id) <==> lo_runs(u, id) by {
                assert(before.contains(id) <==> lo_runs(t, id));
                if lo_runs(t, id) {
                    let j = choose|j: int|
                        0 <= j < t.len() && (#[trigger] t[j]).job_id.0 == id
                            && t[j].criticality is Lo;
                    assert(u[j] == t[j]);
                }
                if lo && id == r.job_id.0 {
                    assert(u[i as int] == r);
                }
                if lo_runs(u, id) {
                    let j = choose|j: int|
                        0 <= j < u.len() && (#[trigger] u[j]).job_id.0 == id
                            && u[j].criticality is Lo;
                    if j < i {
                        assert(t[j] == u[j]);
                    }
                }
            }
        }
        i = i + 1;
    }
    proof {
        assert(running@.take(i as int) =~= running@);
    }
    let mut k: usize = 0;
    while k < waiting.len()
        invariant
            k <= waiting@.len(),
            tables::ascending(ids@),
            forall|id: u64| #[trigger]
                ids@.contains(id) <==> lo_runs(running@, id) || lo_waits(
                    waiting@.take(k as int),
                    id,
                ),
        decreases waiting@.len() - k,
    {
        let ghost before = ids@;
        let q: QueuedJobInfo = waiting[k];
        let lo: bool = q.criticality == CriticalityLevel::Lo;
        if lo {
            tables::insert_ascending(&mut ids, q.job_id.0);
        }
        proof {
            let t = waiting@.take(k as int);
            let u = waiting@.take(k as int + 1);
            assert forall|id: u64| #[trigger] ids@.contains(id) <==> lo_runs(running@, id)
                || lo_waits(u, id) by {
                assert(before.contains(id) <==> lo_runs(running@, id) || lo_waits(t, id));
                if lo_waits(t, id) {
                    let j = choose|j: int|
                        0 <= j < t.len() && (#[trigger] t[j]).job_id.0 == id
                            && t[j].criticality is Lo;
                    assert(u[j] == t[j]);
                }
                if lo && id == q.job_id.0 {
                    assert(u[k as int] == q);
                }
                if lo_waits(u, id) {
                    let j = choose|j: int|
                        0 <= j < u.len() && (#[trigger] u[j]).job_id.0 == id
                            && u[j].criticality is Lo;
                    if j < k {
                        assert(t[j] == u[j]);
                    }
                }
            }
        }
        k = k + 1;
    }
    proof {
        assert(waiting@.take(k as int) =~= waiting@);
    }
    ids
}

impl Scheduler for EdfVdScheduler {
    open spec fn alike(&self, other: &Self) -> bool {
        self.num() == other.num() && self.den() == other.den()
    }

    open spec fn wants(&self, policy: ReevaluationPolicy) -> bool {
        policy is Disabled
    }

    open spec fn answers_arrival(
        &self,
        job: &Job,
        task: &Task,
        view: Sight,
        actions: Seq<Action>,
        after: &Self,
    ) -> bool {
        &&& actions =~= arrival(self.num(), self.den(), job, task, view)
        &&& *after == *self
    }

    open spec fn answers_completion(
        &self,
        job: &Job,
        device_id: DeviceId,
        view: Sight,
        actions: Seq<Action>,
        after: &Self,
    ) -> bool {
        &&& actions =~= rank::dispatch_of(
            best_virtual(
                self.num(),
                self.den(),
                view.waiting_at(device_id),
                view.criticality_level,
            ),
            device_id,
        )
        &&& *after == *self
    }

    open spec fn answers_point(
        &self,
        device_id: DeviceId,
        running_job: &Job,
        view: Sight,
        actions: Seq<Action>,
        after: &Self,
    ) -> bool {
        &&& actions =~= point(self.num(), self.den(), device_id, running_job, view)
        &&& *after == *self
    }

    open spec fn answers_change(
        &self,
        new_level: CriticalityLevel,
        trigger_job: &Job,
        view: Sight,
        actions: Seq<Action>,
        after: &Self,
    ) -> bool {
        &&& new_level is Lo ==> actions =~= seq![Action::NoOp]
        &&& new_level is Hi ==> drops_all_lo(actions, view)
        &&& *after == *self
    }

    open spec fn answers_idle(
        &self,
        device_id: DeviceId,
        view: Sight,
        actions: Seq<Action>,
        after: &Self,
    ) -> bool {
        actions =~= scheduler::head_dispatch(view.waiting_at(device_id), device_id) && *after
            == *self
    }

    open spec fn answers_reevaluation(
        &self,
        trigger: ReevaluationTrigger,
        view: Sight,
        actions: Seq<Action>,
        after: &Self,
    ) -> bool {
        actions =~= seq![Action::NoOp] && *after == *self
    }

    fn name(&self) -> (name: &str)
        ensures
            name@ == "EDF-VD-Het"@,
    {
        "EDF-VD-Het"
    }

    fn reevaluation_policy(&self) -> (policy: ReevaluationPolicy)
        ensures
            policy is Disabled,
    {
        ReevaluationPolicy::Disabled
    }

    fn on_job_arrival(&mut self, job: &Job, task: &Task, view: &SchedulerView<'_>) -> (actions: Vec<
        Action,
    >)
        ensures
            actions@ == arrival(old(self).num(), old(self).den(), job, task, view@),
            *final(self) == *old(self),
    {
        let mode: CriticalityLevel = view.criticality_level;
        if !Self::is_schedulable_in_mode(task.criticality, mode) {
            return vec![Action::DropJob { job_id: job.id }];
        }
        let ids: Vec<DeviceId> = view.compatible_devices(task);
        let d: DeviceId = match placement::pick_least_loaded(view, &ids, true) {
            Some(d) => d,
            None => {
                return vec![Action::NoOp];
            },
        };
        let running: Option<RunningJobInfo> = view.running_on_device(d);
        let preempts: bool = match running {
            None => false,
            Some(r) => {
                if !Self::is_schedulable_in_mode(r.criticality, mode) {
                    return vec![
                        Action::DropJob { job_id: r.job_id },
                        Action::Dispatch { job_id: job.id, device_id: d },
                    ];
                }
                let incoming: u64 = self.effective_deadline(
                    task.criticality,
                    job.release_time,
                    job.absolute_deadline,
                    mode,
                );
                let current: u64 = self.effective_deadline(
                    r.criticality,
                    r.release_time,
                    r.absolute_deadline,
                    mode,
                );
                let job_key = Key {
                    k0: job.absolute_deadline as i128,
                    k1: job.release_time as i128,
                    k2: job.id.0 as i128,
                    k3: 0,
                    k4: 0,
                    k5: 0,
                };
                let running_key = Key {
                    k0: r.absolute_deadline as i128,
                    k1: r.release_time as i128,
                    k2: r.job_id.0 as i128,
                    k3: 0,
                    k4: 0,
                    k5: 0,
                };
                incoming < current || (incoming == current && job_key.is_less(&running_key))
            },
        };
        rank::place_job(job, d, running, preempts)
    }

    fn on_job_complete(
        &mut self,
        _job: &Job,
        device_id: DeviceId,
        view: &SchedulerView<'_>,
    ) -> (actions: Vec<Action>)
        ensures
            actions@ == rank::dispatch_of(
                best_virtual(
                    old(self).num(),
                    old(self).den(),
                    view.waiting_at(device_id),
                    view.criticality_level,
                ),
                device_id,
            ),
            *final(self) == *old(self),
    {
        rank::dispatch_next(self.best_waiting_job(device_id, view), device_id)
    }

    fn on_preemption_point(
        &mut self,
        device_id: DeviceId,
        running_job: &Job,
        view: &SchedulerView<'_>,
    ) -> (actions: Vec<Action>)
        ensures
            actions@ == point(old(self).num(), old(self).den(), device_id, running_job, view@),
            *final(self) == *old(self),
    {
        let mode: CriticalityLevel = view.criticality_level;
        match (view.running_on_device(device_id), self.best_waiting_job(device_id, view)) {
            (Some(r), Some(w)) => {
                if !Self::is_schedulable_in_mode(r.criticality, mode) {
                    vec![
                        Action::DropJob { job_id: r.job_id },
                        Action::Dispatch { job_id: w.job_id, device_id },
                    ]
                } else if self.effective_deadline(
                    w.criticality,
                    w.release_time,
                    w.absolute_deadline,
                    mode,
                ) < self.effective_deadline(
                    r.criticality,
                    r.release_time,
                    r.absolute_deadline,
                    mode,
                ) {
                    vec![Action::Preempt { victim: running_job.id, by: w.job_id, device_id }]
                } else {
                    vec![Action::NoOp]
                }
            },
            _ => vec![Action::NoOp],
        }
    }

    fn on_criticality_change(
        &mut self,
        new_level: CriticalityLevel,
        _trigger_job: &Job,
        view: &SchedulerView<'_>,
    ) -> (actions: Vec<Action>)
        ensures
            new_level is Lo ==> actions@ == seq![Action::NoOp],
            new_level is Hi ==> drops_all_lo(actions@, view@),
            *final(self) == *old(self),
    {
        if new_level != CriticalityLevel::Hi {
            return vec![Action::NoOp];
        }
        let ids: Vec<u64> = list_lo(view);
        if ids.len() == 0 {
            let none: Vec<Action> = vec![Action::NoOp];
            proof {
                assert(tables::ascending(ids@));
                assert(none@ =~= seq![Action::NoOp]);
            }
            return none;
        }
        let mut actions: Vec<Action> = Vec::new();
        let mut i: usize = 0;
        while i < ids.len()
            invariant
                i <= ids@.len(),
                actions@ =~= drops_of(ids@).take(i as int),
            decreases ids@.len() - i,
        {
            actions.push(Action::DropJob { job_id: JobId(ids[i]) });
            i = i + 1;
        }
        proof {
            assert(actions@ =~= drops_of(ids@));
            assert(tables::ascending(ids@));
        }
        actions
    }

    fn on_device_idle(&mut self, device_id: DeviceId, view: &SchedulerView<'_>) -> (actions: Vec<
        Action,
    >)
        ensures
            actions@ == scheduler::head_dispatch(view.waiting_at(device_id), device_id),
            *final(self) == *old(self),
    {
        scheduler::dispatch_head(device_id, view)
    }

    fn on_reevaluation(
        &mut self,
        _trigger: ReevaluationTrigger,
        _view: &SchedulerView<'_>,
    ) -> (actions: Vec<Action>)
        ensures
            actions@ == seq![Action::NoOp],
            *final(self) == *old(self),
    {
        vec![Action::NoOp]
    }
}

/// A virtual deadline is never later than the deadline, for a job released
/// before its deadline and a ratio of at most one.
pub proof fn law_virtual_deadline_is_not_later(
    num: u64,
    den: u64,
    criticality: CriticalityLevel,
    release: u64,
    deadline: u64,
    mode: CriticalityLevel,
)
    requires
        0 < den,
        num <= den,
        release <= deadline,
    ensures
        virtual_deadline(num, den, criticality, release, deadline, mode) <= deadline,
{
    let relative = arith::sat_sub(deadline, release);
    let scaled = arith::sat_mul(relative, num);
    assert(scaled <= relative * num);
    assert(scaled as int / den as int <= relative) by (nonlinear_arith)
        requires
            scaled <= relative * num,
            0 <= num <= den,
            0 < den,
            0 <= relative,
    ;
}

/// In high mode no low-criticality job is chosen to run.
pub proof fn law_high_mode_serves_high_only(num: u64, den: u64, queue: Seq<QueuedJobInfo>)
    ensures
        best_virtual(num, den, queue, CriticalityLevel::Hi) matches Some(w) ==> w.criticality is Hi,
{
    let mode = CriticalityLevel::Hi;
    let list = served_of(queue, mode);
    lemma_served_only(queue, mode);
    select::law_least_is_first_minimum(waiting_keys(num, den, list, mode));
}

/// The served part of a queue holds served jobs only.
proof fn lemma_served_only(queue: Seq<QueuedJobInfo>, mode: CriticalityLevel)
    ensures
        forall|i: int|
            0 <= i < served_of(queue, mode).len() ==> served(
                (#[trigger] served_of(queue, mode)[i]).criticality,
                mode,
            ),
    decreases queue.len(),
{
    if queue.len() > 0 {
        lemma_served_only(queue.drop_last(), mode);
    }
}

} // verus!

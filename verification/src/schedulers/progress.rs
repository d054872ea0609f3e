//! Remaining work of the jobs a scheduler has seen, followed through what the
//! view shows of their execution.

use crate::arith;
use crate::scheduler::{RunningJobInfo, SchedulerView, Sight};
use crate::schedulers::tables;
use std::collections::HashMap;
use vstd::prelude::*;

verus! {

broadcast use vstd::std_specs::hash::group_hash_axioms;

/// Remaining work of each known job, and the execution time that each running
/// job showed last.
#[verifier::ext_equal]
pub ghost struct Progress {
    pub remaining: Map<u64, u64>,
    pub elapsed: Map<u64, u64>,
}

impl Progress {
    /// The remaining work of a job, zero where it is not known.
    pub open spec fn remaining_of(self, id: u64) -> u64 {
        if self.remaining.contains_key(id) {
            self.remaining[id]
        } else {
            0
        }
    }

    /// One running job seen: what it executed since it was seen last comes off
    /// its remaining work. A lower execution time than the last one means that
    /// it was dispatched anew.
    pub open spec fn seen(self, r: RunningJobInfo) -> Progress {
        let id = r.job_id.0;
        let delta = if self.elapsed.contains_key(id) && r.elapsed_ns >= self.elapsed[id] {
            (r.elapsed_ns - self.elapsed[id]) as u64
        } else {
            r.elapsed_ns
        };
        Progress {
            remaining: if self.remaining.contains_key(id) {
                self.remaining.insert(id, arith::sat_sub(self.remaining[id], delta))
            } else {
                self.remaining
            },
            elapsed: self.elapsed.insert(id, r.elapsed_ns),
        }
    }

    /// All running jobs of a list seen in turn.
    pub open spec fn seen_all(self, list: Seq<RunningJobInfo>) -> Progress
        decreases list.len(),
    {
        if list.len() == 0 {
            self
        } else {
            self.seen_all(list.drop_last()).seen(list.last())
        }
    }

    /// A view observed: progress of the running jobs counted, jobs that the
    /// view no longer shows forgotten.
    pub open spec fn observed(self, view: Sight) -> Progress {
        let all = self.seen_all(tables::running_list(view.running_jobs));
        Progress {
            remaining: all.remaining.restrict(tables::visible_ids(view)),
            elapsed: all.elapsed.restrict(tables::running_ids(view)),
        }
    }

    /// A job with new work.
    pub open spec fn assigned(self, id: u64, work: u64) -> Progress {
        Progress { remaining: self.remaining.insert(id, work), elapsed: self.elapsed.remove(id) }
    }

    /// A job forgotten.
    pub open spec fn forgotten(self, id: u64) -> Progress {
        Progress { remaining: self.remaining.remove(id), elapsed: self.elapsed.remove(id) }
    }
}

/// Follows the remaining work of jobs.
#[derive(Debug, Clone)]
pub struct ProgressTracker {
    remaining_work_ns: HashMap<u64, u64>,
    running_elapsed_ns: HashMap<u64, u64>,
}

impl ProgressTracker {
    /// What is known of the jobs.
    pub closed spec fn view(&self) -> Progress {
        Progress { remaining: self.remaining_work_ns@, elapsed: self.running_elapsed_ns@ }
    }

    /// A tracker that knows no job.
    pub fn new() -> (t: Self)
        ensures
            t.view().remaining == Map::<u64, u64>::empty(),
            t.view().elapsed == Map::<u64, u64>::empty(),
    {
        ProgressTracker { remaining_work_ns: HashMap::new(), running_elapsed_ns: HashMap::new() }
    }

    /// Observes a view.
    pub fn observe(&mut self, view: &SchedulerView<'_>)
        ensures
            final(self).view() == old(self).view().observed(view@),
    {
        let list: Vec<RunningJobInfo> = tables::list_running(view);
        let ghost start = self.view();
        let mut i: usize = 0;
        while i < list.len()
            invariant
                i <= list@.len(),
                self.view() == start.seen_all(list@.take(i as int)),
            decreases list@.len() - i,
        {
            let ghost before = self.view();
            let r: RunningJobInfo = list[i];
            let id: u64 = r.job_id.0;
            let delta: u64 = match self.running_elapsed_ns.get(&id) {
                Some(prev) => if r.elapsed_ns >= *prev {
                    r.elapsed_ns - *prev
                } else {
                    r.elapsed_ns
                },
                None => r.elapsed_ns,
            };
            let left: Option<u64> = match self.remaining_work_ns.get(&id) {
                Some(remaining) => Some(remaining.saturating_sub(delta)),
                None => None,
            };
            if let Some(remaining) = left {
                self.remaining_work_ns.insert(id, remaining);
            }
            self.running_elapsed_ns.insert(id, r.elapsed_ns);
            proof {
                assert(list@.take(i as int + 1).drop_last() =~= list@.take(i as int));
                assert(self.view() =~= before.seen(r));
            }
            i = i + 1;
        }
        proof {
            assert(list@.take(i as int) =~= list@);
        }
        let running: Vec<u64> = tables::list_running_ids(view);
        let visible: Vec<u64> = tables::list_visible_ids(view);
        proof {
            assert(Set::new(|id: u64| running@.contains(id)) =~= tables::running_ids(view@));
            assert(Set::new(|id: u64| visible@.contains(id)) =~= tables::visible_ids(view@));
        }
        let kept_elapsed: HashMap<u64, u64> = tables::retain_listed(
            &self.running_elapsed_ns,
            &running,
        );
        let kept_remaining: HashMap<u64, u64> = tables::retain_listed(
            &self.remaining_work_ns,
            &visible,
        );
        self.running_elapsed_ns = kept_elapsed;
        self.remaining_work_ns = kept_remaining;
    }

    /// Gives a job new work.
    pub fn assign(&mut self, id: u64, work: u64)
        ensures
            final(self).view() == old(self).view().assigned(id, work),
    {
        self.remaining_work_ns.insert(id, work);
        self.running_elapsed_ns.remove(&id);
    }

    /// Forgets a job.
    pub fn forget(&mut self, id: u64)
        ensures
            final(self).view() == old(self).view().forgotten(id),
    {
        self.remaining_work_ns.remove(&id);
        self.running_elapsed_ns.remove(&id);
    }

    /// Tells the remaining work of a job, zero where it is not known.
    pub fn remaining(&self, id: u64) -> (work: u64)
        ensures
            work == self.view().remaining_of(id),
    {
        match self.remaining_work_ns.get(&id) {
            Some(work) => *work,
            None => 0,
        }
    }
}

/// Seeing jobs run never adds to the remaining work of a job.
pub proof fn law_progress_never_adds_work(p: Progress, list: Seq<RunningJobInfo>, id: u64)
    ensures
        p.seen_all(list).remaining_of(id) <= p.remaining_of(id),
    decreases list.len(),
{
    if list.len() > 0 {
        law_progress_never_adds_work(p, list.drop_last(), id);
    }
}

/// Observing a view keeps work only for the jobs that it shows.
pub proof fn law_observed_jobs_are_visible(p: Progress, view: Sight, id: u64)
    ensures
        p.observed(view).remaining.contains_key(id) ==> tables::runs(view, id) || tables::waits(
            view,
            id,
        ),
        p.observed(view).elapsed.contains_key(id) ==> tables::runs(view, id),
{
}

} // verus!

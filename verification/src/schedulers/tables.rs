//! What a view shows as flat lists, and tables kept for the jobs it shows.

use crate::ids::DeviceId;
use crate::scheduler::{QueuedJobInfo, RunningJobInfo, SchedulerView, Sight};
use std::collections::HashMap;
use vstd::prelude::*;

verus! {

broadcast use vstd::std_specs::hash::group_hash_axioms;

/// All running jobs, in device order.
pub open spec fn running_list(entries: Seq<(DeviceId, Option<RunningJobInfo>)>) -> Seq<
    RunningJobInfo,
>
    decreases entries.len(),
{
    if entries.len() == 0 {
        Seq::empty()
    } else {
        let rest = running_list(entries.drop_last());
        match entries.last().1 {
            Some(r) => rest.push(r),
            None => rest,
        }
    }
}

/// All waiting jobs, in queue order.
pub open spec fn waiting_list(queues: Seq<(DeviceId, Seq<QueuedJobInfo>)>) -> Seq<QueuedJobInfo>
    decreases queues.len(),
{
    if queues.len() == 0 {
        Seq::empty()
    } else {
        waiting_list(queues.drop_last()) + queues.last().1
    }
}

/// Whether a job runs somewhere.
pub open spec fn runs(view: Sight, id: u64) -> bool {
    exists|i: int|
        0 <= i < running_list(view.running_jobs).len() && (#[trigger] running_list(
            view.running_jobs,
        )[i]).job_id.0 == id
}

/// Whether a job waits somewhere.
pub open spec fn waits(view: Sight, id: u64) -> bool {
    exists|i: int|
        0 <= i < waiting_list(view.ready_queues).len() && (#[trigger] waiting_list(
            view.ready_queues,
        )[i]).job_id.0 == id
}

/// The jobs that run.
pub open spec fn running_ids(view: Sight) -> Set<u64> {
    Set::new(|id: u64| runs(view, id))
}

/// The jobs that run or wait.
pub open spec fn visible_ids(view: Sight) -> Set<u64> {
    Set::new(|id: u64| runs(view, id) || waits(view, id))
}

/// Lists all running jobs.
pub fn list_running(view: &SchedulerView<'_>) -> (list: Vec<RunningJobInfo>)
    ensures
        list@ == running_list(view@.running_jobs),
{
    let mut list: Vec<RunningJobInfo> = Vec::new();
    let mut i: usize = 0;
    while i < view.running_jobs.len()
        invariant
            i <= view@.running_jobs.len(),
            list@ == running_list(view@.running_jobs.take(i as int)),
        decreases view@.running_jobs.len() - i,
    {
        proof {
            assert(view@.running_jobs.take(i as int + 1).drop_last() =~= view@.running_jobs.take(
                i as int,
            ));
        }
        match view.running_jobs[i].1 {
            Some(r) => {
                list.push(r);
            },
            None => {},
        }
        i = i + 1;
    }
    proof {
        assert(view@.running_jobs.take(i as int) =~= view@.running_jobs);
    }
    list
}

/// Lists all waiting jobs.
pub fn list_waiting(view: &SchedulerView<'_>) -> (list: Vec<QueuedJobInfo>)
    ensures
        list@ == waiting_list(view@.ready_queues),
{
    let mut list: Vec<QueuedJobInfo> = Vec::new();
    let mut d: usize = 0;
    while d < view.ready_queues.len()
        invariant
            d <= view@.ready_queues.len(),
            list@ == waiting_list(view@.ready_queues.take(d as int)),
        decreases view@.ready_queues.len() - d,
    {
        let queue: &Vec<QueuedJobInfo> = &view.ready_queues[d].1;
        let ghost before = list@;
        let mut i: usize = 0;
        while i < queue.len()
            invariant
                i <= queue@.len(),
                list@ == before + queue@.take(i as int),
            decreases queue@.len() - i,
        {
            list.push(queue[i]);
            proof {
                assert(queue@.take(i as int + 1) =~= queue@.take(i as int).push(queue@[i as int]));
            }
            i = i + 1;
        }
        proof {
            assert(queue@.take(i as int) =~= queue@);
            assert(view@.ready_queues.take(d as int + 1).drop_last() =~= view@.ready_queues.take(
                d as int,
            ));
        }
        d = d + 1;
    }
    proof {
        assert(view@.ready_queues.take(d as int) =~= view@.ready_queues);
    }
    list
}

/// Lists the ids of the running jobs.
pub fn list_running_ids(view: &SchedulerView<'_>) -> (ids: Vec<u64>)
    ensures
        forall|id: u64| #[trigger] ids@.contains(id) <==> runs(view@, id),
{
    let list: Vec<RunningJobInfo> = list_running(view);
    let mut ids: Vec<u64> = Vec::new();
    let mut i: usize = 0;
    while i < list.len()
        invariant
            i <= list@.len(),
            ids@.len() == i,
            forall|j: int| 0 <= j < i ==> #[trigger] ids@[j] == list@[j].job_id.0,
        decreases list@.len() - i,
    {
        ids.push(list[i].job_id.0);
        i = i + 1;
    }
    proof {
        assert forall|id: u64| #[trigger] ids@.contains(id) <==> runs(view@, id) by {
            if ids@.contains(id) {
                let j = choose|j: int| 0 <= j < ids@.len() && ids@[j] == id;
                assert(list@[j].job_id.0 == id);
            }
            if runs(view@, id) {
                let j = choose|j: int|
                    0 <= j < running_list(view@.running_jobs).len() && (#[trigger] running_list(
                        view@.running_jobs,
                    )[j]).job_id.0 == id;
                assert(ids@[j] == id);
            }
        }
    }
    ids
}

/// Lists the ids of the running and the waiting jobs.
pub fn list_visible_ids(view: &SchedulerView<'_>) -> (ids: Vec<u64>)
    ensures
        forall|id: u64| #[trigger]
            ids@.contains(id) <==> (runs(view@, id) || waits(view@, id)),
{
    let mut ids: Vec<u64> = list_running_ids(view);
    let ghost running = ids@;
    let list: Vec<QueuedJobInfo> = list_waiting(view);
    let mut i: usize = 0;
    while i < list.len()
        invariant
            i <= list@.len(),
            ids@.len() == running.len() + i,
            forall|j: int| 0 <= j < running.len() ==> #[trigger] ids@[j] == running[j],
            forall|j: int|
                running.len() <= j < ids@.len() ==> #[trigger] ids@[j] == list@[j
                    - running.len()].job_id.0,
        decreases list@.len() - i,
    {
        ids.push(list[i].job_id.0);
        i = i + 1;
    }
    proof {
        assert forall|id: u64| #[trigger] ids@.contains(id) <==> (runs(view@, id) || waits(
            view@,
            id,
        )) by {
            if ids@.contains(id) {
                let j = choose|j: int| 0 <= j < ids@.len() && ids@[j] == id;
                if j < running.len() {
                    assert(running[j] == id);
                    assert(running.contains(id));
                } else {
                    assert(list@[j - running.len()].job_id.0 == id);
                }
            }
            if runs(view@, id) {
                assert(running.contains(id));
                let j = choose|j: int| 0 <= j < running.len() && running[j] == id;
                assert(ids@[j] == id);
            }
            if waits(view@, id) {
                let j = choose|j: int|
                    0 <= j < waiting_list(view@.ready_queues).len() && (#[trigger] waiting_list(
                        view@.ready_queues,
                    )[j]).job_id.0 == id;
                assert(ids@[running.len() + j] == id);
            }
        }
    }
    ids
}

/// Keeps the entries of a table whose keys are listed.
pub fn retain_listed(table: &HashMap<u64, u64>, ids: &Vec<u64>) -> (kept: HashMap<u64, u64>)
    ensures
        kept@ == table@.restrict(Set::new(|id: u64| ids@.contains(id))),
{
    let mut kept: HashMap<u64, u64> = HashMap::new();
    let mut i: usize = 0;
    while i < ids.len()
        invariant
            i <= ids@.len(),
            forall|id: u64| #[trigger]
                kept@.contains_key(id) <==> table@.contains_key(id) && ids@.take(
                    i as int,
                ).contains(id),
            forall|id: u64| #[trigger] kept@.contains_key(id) ==> kept@[id] == table@[id],
        decreases ids@.len() - i,
    {
        proof {
            let t = ids@.take(i as int);
            assert(ids@.take(i as int + 1) =~= t.push(ids@[i as int]));
            assert forall|id: u64| t.push(ids@[i as int]).contains(id) <==> t.contains(id) || id
                == ids@[i as int] by {
                if t.contains(id) {
                    let j = choose|j: int| 0 <= j < t.len() && t[j] == id;
                    assert(t.push(ids@[i as int])[j] == id);
                }
                if id == ids@[i as int] {
                    assert(t.push(ids@[i as int])[t.len() as int] == id);
                }
            }
        }
        match table.get(&ids[i]) {
            Some(v) => {
                kept.insert(ids[i], *v);
            },
            None => {},
        }
        i = i + 1;
    }
    proof {
        assert(ids@.take(i as int) =~= ids@);
        assert(kept@ =~= table@.restrict(Set::new(|id: u64| ids@.contains(id))));
    }
    kept
}

/// Whether a list is strictly ascending.
pub open spec fn ascending(s: Seq<u64>) -> bool {
    forall|i: int, j: int| 0 <= i < j < s.len() ==> s[i] < s[j]
}

/// Inserts an id into an ascending list, once.
pub fn insert_ascending(list: &mut Vec<u64>, id: u64)
    requires
        ascending(old(list)@),
    ensures
        ascending(final(list)@),
        forall|x: u64| #[trigger]
            final(list)@.contains(x) <==> old(list)@.contains(x) || x == id,
{
    let ghost before = list@;
    let mut i: usize = 0;
    while i < list.len() && list[i] < id
        invariant
            list@ == before,
            i <= list@.len(),
            forall|j: int| 0 <= j < i ==> list@[j] < id,
        decreases list@.len() - i,
    {
        i = i + 1;
    }
    if i < list.len() && list[i] == id {
        return;
    }
    list.insert(i, id);
    proof {
        let after = before.insert(i as int, id);
        assert forall|x: u64| #[trigger] after.contains(x) <==> before.contains(x) || x == id by {
            if before.contains(x) {
                let j = choose|j: int| 0 <= j < before.len() && before[j] == x;
                if j < i {
                    assert(after[j] == x);
                } else {
                    assert(after[j + 1] == x);
                }
            }
            if x == id {
                assert(after[i as int] == x);
            }
            if after.contains(x) {
                let j = choose|j: int| 0 <= j < after.len() && after[j] == x;
                if j < i {
                    assert(before[j] == x);
                } else if j > i {
                    assert(before[j - 1] == x);
                }
            }
        }
    }
}

} // verus!

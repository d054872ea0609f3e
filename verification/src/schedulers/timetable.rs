//! When the nodes of a HEFT plan run, and why a plan puts each of them on its
//! device.

use crate::device::DeviceConfig;
use crate::ids::DeviceId;
use crate::schedulers::heft;
use crate::schedulers::heft::PlanState;
use crate::schedulers::placement;
use crate::search;
use crate::task;
use crate::task::{DagTask, DeviceType, ExecutionTimeModel, SubTask};
use vstd::prelude::*;

verus! {

/// When the nodes of a plan run: in which order they are mapped, and when each
/// starts and finishes.
#[verifier::ext_equal]
pub ghost struct Timetable {
    pub order: Seq<int>,
    pub start: Seq<int>,
    pub finish: Seq<int>,
}

/// A number held at the largest `u128`.
pub open spec fn capped(n: int) -> int {
    if n > u128::MAX {
        u128::MAX as int
    } else {
        n
    }
}

/// Whether nodes are mapped in the order of falling rank, those of equal rank
/// in their own order.
pub open spec fn falls(rank: Seq<u128>, order: Seq<int>) -> bool {
    forall|a: int, b: int|
        0 <= a < b < order.len() ==> rank[#[trigger] order[a]] > rank[#[trigger] order[b]] || (
        rank[order[a]] == rank[order[b]] && order[a] < order[b])
}

/// Whether an edge leads from one node to another.
pub open spec fn leads(dag: DagTask, from: int, to: int) -> bool {
    exists|k: int|
        0 <= k < dag.edges@.len() && (#[trigger] dag.edges@[k]).0 == from && dag.edges@[k].1 == to
}

/// Whether the node at a place of the order can start on a device at a time.
/// Each predecessor that was mapped before has finished; if it was mapped to
/// another device, its bytes have come over since, one per unit of time. What
/// was mapped to the device before has finished.
pub open spec fn can_start(
    dag: DagTask,
    mapping: Seq<DeviceId>,
    plan: Timetable,
    b: int,
    d: DeviceId,
    t: int,
) -> bool {
    &&& t >= 0
    &&& forall|a: int|
        0 <= a < b && leads(dag, #[trigger] plan.order[a], plan.order[b])
            && mapping[plan.order[a]] != d ==> t >= capped(
            plan.finish[plan.order[a]] + heft::bytes_on(dag, plan.order[a], plan.order[b]),
        )
    &&& forall|a: int|
        0 <= a < b && leads(dag, #[trigger] plan.order[a], plan.order[b]) ==> t
            >= plan.finish[plan.order[a]]
    &&& forall|a: int|
        0 <= a < b && mapping[#[trigger] plan.order[a]] == d ==> t >= plan.finish[plan.order[a]]
}

/// The cost of a node on the device at a place of its list of candidates.
pub open spec fn cost_at(node: SubTask, devices: Seq<DeviceConfig>, m: int) -> int {
    heft::cost_on(node, devices[heft::candidates(node, devices)[m]].device_type) as int
}

/// The device at a place of the list of candidates of a node.
pub open spec fn device_at(node: SubTask, devices: Seq<DeviceConfig>, m: int) -> DeviceId {
    devices[heft::candidates(node, devices)[m]].id
}

/// Whether a candidate is the one that the node at a place of the order is
/// mapped to: the node starts there when it can, and finishes after its cost;
/// on no candidate it could finish earlier, nor as early on one that is listed
/// before.
pub open spec fn is_chosen(
    dag: DagTask,
    devices: Seq<DeviceConfig>,
    mapping: Seq<DeviceId>,
    plan: Timetable,
    b: int,
    m: int,
) -> bool {
    let node = dag.nodes@[plan.order[b]];
    &&& 0 <= m < heft::candidates(node, devices).len()
    &&& mapping[plan.order[b]] == device_at(node, devices, m)
    &&& can_start(dag, mapping, plan, b, mapping[plan.order[b]], plan.start[plan.order[b]])
    &&& plan.finish[plan.order[b]] == capped(
        plan.start[plan.order[b]] + cost_at(node, devices, m),
    )
    &&& forall|c: int, t: int|
        0 <= c < heft::candidates(node, devices).len() && #[trigger] can_start(
            dag,
            mapping,
            plan,
            b,
            device_at(node, devices, c),
            t,
        ) ==> plan.finish[plan.order[b]] <= capped(t + cost_at(node, devices, c)) && (c < m
            ==> plan.finish[plan.order[b]] < capped(t + cost_at(node, devices, c)))
}

/// Whether the node at a place of the order is mapped to the candidate on
/// which it finishes first.
pub open spec fn is_timed(
    dag: DagTask,
    devices: Seq<DeviceConfig>,
    mapping: Seq<DeviceId>,
    plan: Timetable,
    b: int,
) -> bool {
    exists|m: int| is_chosen(dag, devices, mapping, plan, b, m)
}

/// Whether a timetable is one of a mapping.
pub open spec fn is_timetable(
    dag: DagTask,
    devices: Seq<DeviceConfig>,
    rank: Seq<u128>,
    mapping: Seq<DeviceId>,
    plan: Timetable,
) -> bool {
    let n = dag.nodes@.len();
    &&& mapping.len() == n
    &&& plan.start.len() == n
    &&& plan.finish.len() == n
    &&& plan.order.len() == n
    &&& forall|i: int| 0 <= i < n ==> #[trigger] plan.order.contains(i)
    &&& falls(rank, plan.order)
    &&& forall|b: int| 0 <= b < n ==> #[trigger] is_timed(dag, devices, mapping, plan, b)
}

proof fn lemma_ready(
    s: PlanState,
    dag: DagTask,
    n: int,
    i: int,
    d: DeviceId,
    t: int,
)
    requires
        0 <= n <= dag.edges@.len(),
        t >= 0,
    ensures
        (forall|k: int|
            0 <= k < n && (#[trigger] dag.edges@[k]).1 == i && heft::joins(dag, dag.edges@[k])
                ==> t >= capped(
                s.finish[dag.edges@[k].0 as int] + if s.scheduled[dag.edges@[k].0 as int]
                    && s.mapping[dag.edges@[k].0 as int] != d {
                    heft::bytes_on(dag, dag.edges@[k].0 as int, i) as int
                } else {
                    0
                },
            )) <==> s.ready_at(dag, dag.edges@.take(n), i, d) <= t,
    decreases n,
{
    let edges = dag.edges@.take(n);
    if n > 0 {
        let e = dag.edges@[n - 1];
        assert(edges.drop_last() =~= dag.edges@.take(n - 1));
        assert(edges.last() == e);
        lemma_ready(s, dag, n - 1, i, d, t);
    }
}

proof fn lemma_earliest(
    s: PlanState,
    dag: DagTask,
    i: int,
    places: Seq<int>,
    devices: Seq<DeviceConfig>,
) -> (m: int)
    requires
        places.len() > 0,
    ensures
        0 <= m < places.len(),
        s.earliest(dag, i, places, devices) == Some(
            (devices[places[m]].id, s.finish_on(dag, i, devices[places[m]])),
        ),
        forall|c: int|
            0 <= c < places.len() ==> s.finish_on(dag, i, devices[places[m]]) <= s.finish_on(
                dag,
                i,
                devices[#[trigger] places[c]],
            ),
        forall|c: int|
            0 <= c < m ==> s.finish_on(dag, i, devices[places[m]]) < s.finish_on(
                dag,
                i,
                devices[#[trigger] places[c]],
            ),
    decreases places.len(),
{
    let rest = places.drop_last();
    let last = places.len() - 1;
    if rest.len() == 0 {
        assert(s.earliest(dag, i, rest, devices) is None);
        0
    } else {
        let m = lemma_earliest(s, dag, i, rest, devices);
        assert forall|c: int| 0 <= c < rest.len() implies rest[c] == #[trigger] places[c] by {}
        assert(rest[m] == places[m]);
        if s.finish_on(dag, i, devices[places[last]]) < s.finish_on(dag, i, devices[places[m]]) {
            last
        } else {
            m
        }
    }
}

/// What holds of a mapping in progress, with the timetable so far.
spec fn holds(
    dag: DagTask,
    devices: Seq<DeviceConfig>,
    rank: Seq<u128>,
    nodes: Seq<int>,
    s: PlanState,
    plan: Timetable,
) -> bool {
    let n = dag.nodes@.len();
    &&& s.mapping.len() == n
    &&& s.finish.len() == n
    &&& s.scheduled.len() == n
    &&& plan.start.len() == n
    &&& plan.finish.len() == n
    &&& forall|i: int| 0 <= i < n ==> (#[trigger] plan.finish[i]) == s.finish[i]
    &&& plan.order.len() + nodes.len() == n
    &&& forall|a: int| 0 <= a < plan.order.len() ==> 0 <= #[trigger] plan.order[a] < n
    &&& forall|m: int| 0 <= m < nodes.len() ==> 0 <= #[trigger] nodes[m] < n
    &&& forall|m: int, k: int| 0 <= m < k < nodes.len() ==> nodes[m] < nodes[k]
    &&& forall|i: int| 0 <= i < n ==> (#[trigger] s.scheduled[i] <==> plan.order.contains(i))
    &&& forall|i: int| 0 <= i < n ==> (#[trigger] s.scheduled[i] || nodes.contains(i))
    &&& forall|m: int| 0 <= m < nodes.len() ==> !s.scheduled[#[trigger] nodes[m]]
    &&& forall|i: int| 0 <= i < n && !(#[trigger] s.scheduled[i]) ==> s.finish[i] == 0
    &&& falls(rank, plan.order)
    &&& forall|a: int, m: int|
        0 <= a < plan.order.len() && 0 <= m < nodes.len() ==> rank[#[trigger] plan.order[a]]
            > rank[#[trigger] nodes[m]] || (rank[plan.order[a]] == rank[nodes[m]] && plan.order[a]
            < nodes[m])
    &&& forall|a: int|
        0 <= a < plan.order.len() ==> s.free_at(s.mapping[#[trigger] plan.order[a]])
            >= s.finish[plan.order[a]]
    &&& forall|d: DeviceId|
        (#[trigger] s.free_at(d)) == 0 || exists|a: int|
            0 <= a < plan.order.len() && s.mapping[#[trigger] plan.order[a]] == d
                && s.finish[plan.order[a]] == s.free_at(d)
    &&& forall|b: int|
        0 <= b < plan.order.len() ==> #[trigger] is_timed(dag, devices, s.mapping, plan, b)
}

/// What can start when depends only on what was mapped before.
proof fn lemma_same_start(
    dag: DagTask,
    mapping: Seq<DeviceId>,
    plan: Timetable,
    mapping2: Seq<DeviceId>,
    plan2: Timetable,
    b: int,
    d: DeviceId,
    t: int,
)
    requires
        0 <= b < plan.order.len(),
        b < plan2.order.len(),
        forall|a: int| 0 <= a <= b ==> #[trigger] plan.order[a] == plan2.order[a],
        forall|a: int|
            0 <= a < b ==> {
                &&& mapping[#[trigger] plan.order[a]] == mapping2[plan.order[a]]
                &&& plan.finish[plan.order[a]] == plan2.finish[plan.order[a]]
            },
    ensures
        can_start(dag, mapping, plan, b, d, t) <==> can_start(dag, mapping2, plan2, b, d, t),
{
    if can_start(dag, mapping, plan, b, d, t) {
        assert forall|a: int|
            0 <= a < b && leads(dag, #[trigger] plan2.order[a], plan2.order[b])
                && mapping2[plan2.order[a]] != d implies t >= capped(
            plan2.finish[plan2.order[a]] + heft::bytes_on(dag, plan2.order[a], plan2.order[b]),
        ) by {
            assert(plan.order[a] == plan2.order[a]);
            assert(plan.order[b] == plan2.order[b]);
        }
        assert forall|a: int|
            0 <= a < b && leads(dag, #[trigger] plan2.order[a], plan2.order[b]) implies t
            >= plan2.finish[plan2.order[a]] by {
            assert(plan.order[a] == plan2.order[a]);
            assert(plan.order[b] == plan2.order[b]);
        }
        assert forall|a: int| 0 <= a < b && mapping2[#[trigger] plan2.order[a]] == d implies t
            >= plan2.finish[plan2.order[a]] by {
            assert(plan.order[a] == plan2.order[a]);
        }
    }
    if can_start(dag, mapping2, plan2, b, d, t) {
        assert(plan.order[b] == plan2.order[b]);
    }
}

/// What was timed stays timed.
proof fn lemma_still_timed(
    dag: DagTask,
    devices: Seq<DeviceConfig>,
    mapping: Seq<DeviceId>,
    plan: Timetable,
    mapping2: Seq<DeviceId>,
    plan2: Timetable,
    b: int,
)
    requires
        0 <= b < plan.order.len(),
        b < plan2.order.len(),
        forall|a: int| 0 <= a <= b ==> #[trigger] plan.order[a] == plan2.order[a],
        forall|a: int|
            0 <= a <= b ==> {
                &&& mapping[#[trigger] plan.order[a]] == mapping2[plan.order[a]]
                &&& plan.finish[plan.order[a]] == plan2.finish[plan.order[a]]
                &&& plan.start[plan.order[a]] == plan2.start[plan.order[a]]
            },
        is_timed(dag, devices, mapping, plan, b),
    ensures
        is_timed(dag, devices, mapping2, plan2, b),
{
    let m = choose|m: int| is_chosen(dag, devices, mapping, plan, b, m);
    let i = plan.order[b];
    let node = dag.nodes@[i];
    assert(plan2.order[b] == i);
    lemma_same_start(dag, mapping, plan, mapping2, plan2, b, mapping[i], plan.start[i]);
    assert forall|c: int, t: int|
        0 <= c < heft::candidates(node, devices).len() && #[trigger] can_start(
            dag,
            mapping2,
            plan2,
            b,
            device_at(node, devices, c),
            t,
        ) implies plan2.finish[i] <= capped(t + cost_at(node, devices, c)) && (c < m
        ==> plan2.finish[i] < capped(t + cost_at(node, devices, c))) by {
        lemma_same_start(
            dag,
            mapping,
            plan,
            mapping2,
            plan2,
            b,
            device_at(node, devices, c),
            t,
        );
    }
    assert(is_chosen(dag, devices, mapping2, plan2, b, m));
}

/// A node can start on a device at a time exactly where its data is there and
/// the device is free.
proof fn lemma_start(
    dag: DagTask,
    devices: Seq<DeviceConfig>,
    rank: Seq<u128>,
    nodes: Seq<int>,
    s: PlanState,
    plan: Timetable,
    after: Timetable,
    mapping: Seq<DeviceId>,
    i: int,
    d: DeviceId,
    t: int,
)
    requires
        holds(dag, devices, rank, nodes, s, plan),
        0 <= i < dag.nodes@.len(),
        !s.scheduled[i],
        after.order == plan.order.push(i),
        forall|a: int|
            0 <= a < plan.order.len() ==> mapping[#[trigger] plan.order[a]]
                == s.mapping[plan.order[a]] && after.finish[plan.order[a]]
                == s.finish[plan.order[a]],
        t >= 0,
    ensures
        can_start(dag, mapping, after, plan.order.len() as int, d, t) <==> s.ready_at(
            dag,
            dag.edges@,
            i,
            d,
        ) <= t && s.free_at(d) <= t,
{
    let b = plan.order.len() as int;
    let n = dag.edges@.len() as int;
    assert(dag.edges@.take(n) =~= dag.edges@);
    lemma_ready(s, dag, n, i, d, t);
    assert(after.order[b] == i);
    assert forall|a: int| 0 <= a < b implies #[trigger] after.order[a] == plan.order[a] by {}
    if can_start(dag, mapping, after, b, d, t) {
        assert forall|k: int|
            0 <= k < n && (#[trigger] dag.edges@[k]).1 == i && heft::joins(dag, dag.edges@[k])
                implies t >= capped(
            s.finish[dag.edges@[k].0 as int] + if s.scheduled[dag.edges@[k].0 as int]
                && s.mapping[dag.edges@[k].0 as int] != d {
                heft::bytes_on(dag, dag.edges@[k].0 as int, i) as int
            } else {
                0
            },
        ) by {
            let p = dag.edges@[k].0 as int;
            if s.scheduled[p] {
                assert(plan.order.contains(p));
                let a = choose|a: int| 0 <= a < plan.order.len() && plan.order[a] == p;
                assert(after.order[a] == p);
                assert(leads(dag, after.order[a], after.order[b]));
                assert(mapping[plan.order[a]] == s.mapping[plan.order[a]]);
            }
        }
        if s.free_at(d) != 0 {
            let a = choose|a: int|
                0 <= a < plan.order.len() && s.mapping[#[trigger] plan.order[a]] == d
                    && s.finish[plan.order[a]] == s.free_at(d);
            assert(after.order[a] == plan.order[a]);
            assert(mapping[plan.order[a]] == d);
        }
    }
    if s.ready_at(dag, dag.edges@, i, d) <= t && s.free_at(d) <= t {
        assert forall|a: int|
            0 <= a < b && leads(dag, #[trigger] after.order[a], after.order[b]) implies t >= capped(
            after.finish[after.order[a]] + if mapping[after.order[a]] != d {
                heft::bytes_on(dag, after.order[a], after.order[b]) as int
            } else {
                0
            },
        ) by {
            let p = plan.order[a];
            assert(after.order[a] == p);
            let k = choose|k: int|
                0 <= k < dag.edges@.len() && (#[trigger] dag.edges@[k]).0 == p && dag.edges@[k].1
                    == i;
            assert(plan.order.contains(p));
            assert(s.scheduled[p]);
            assert(heft::joins(dag, dag.edges@[k]));
            assert(mapping[plan.order[a]] == s.mapping[plan.order[a]]);
        }
        assert forall|a: int| 0 <= a < b && mapping[#[trigger] after.order[a]] == d implies t
            >= after.finish[after.order[a]] by {
            assert(after.order[a] == plan.order[a]);
            assert(s.free_at(s.mapping[plan.order[a]]) >= s.finish[plan.order[a]]);
        }
        assert forall|a: int|
            0 <= a < b && leads(dag, #[trigger] after.order[a], after.order[b])
                && mapping[after.order[a]] != d implies t >= capped(
            after.finish[after.order[a]] + heft::bytes_on(dag, after.order[a], after.order[b]),
        ) by {}
        assert forall|a: int|
            0 <= a < b && leads(dag, #[trigger] after.order[a], after.order[b]) implies t
            >= after.finish[after.order[a]] by {
            assert(after.order[a] == plan.order[a]);
            assert(after.finish[plan.order[a]] == s.finish[plan.order[a]]);
        }
    }
}

proof fn lemma_greatest(rank: Seq<u128>, nodes: Seq<int>)
    requires
        nodes.len() > 0,
    ensures
        0 <= heft::first_greatest(rank, nodes) < nodes.len(),
        forall|m: int|
            0 <= m < nodes.len() ==> rank[nodes[heft::first_greatest(rank, nodes)]]
                >= rank[#[trigger] nodes[m]],
        forall|m: int|
            0 <= m < heft::first_greatest(rank, nodes) ==> rank[nodes[heft::first_greatest(
                rank,
                nodes,
            )]] > rank[#[trigger] nodes[m]],
    decreases nodes.len(),
{
    if nodes.len() > 1 {
        let rest = nodes.drop_last();
        lemma_greatest(rank, rest);
        assert forall|m: int| 0 <= m < rest.len() implies rest[m] == #[trigger] nodes[m] by {}
    }
}

/// The next node is mapped.
proof fn lemma_step(
    dag: DagTask,
    devices: Seq<DeviceConfig>,
    rank: Seq<u128>,
    nodes: Seq<int>,
    s: PlanState,
    plan: Timetable,
) -> (after: Timetable)
    requires
        devices.len() > 0,
        nodes.len() > 0,
        holds(dag, devices, rank, nodes, s, plan),
    ensures
        holds(
            dag,
            devices,
            rank,
            nodes.remove(heft::first_greatest(rank, nodes)),
            s.placed(dag, devices, nodes[heft::first_greatest(rank, nodes)]),
            after,
        ),
{
    let at = heft::first_greatest(rank, nodes);
    lemma_greatest(rank, nodes);
    let i = nodes[at];
    let node = dag.nodes@[i];
    let places = heft::candidates(node, devices);
    let m = lemma_earliest(s, dag, i, places, devices);
    let device = devices[places[m]];
    let d = device.id;
    let f = s.finish_on(dag, i, device);
    let begin = heft::larger(s.ready_at(dag, dag.edges@, i, d), s.free_at(d)) as int;
    let next = s.placed(dag, devices, i);
    let left = nodes.remove(at);
    let after = Timetable {
        order: plan.order.push(i),
        start: plan.start.update(i, begin),
        finish: plan.finish.update(i, f as int),
    };
    let b = plan.order.len() as int;
    let n = dag.nodes@.len();
    assert(!s.scheduled[i]) by {
        assert(!s.scheduled[nodes[at]]);
    }
    assert(next.mapping == s.mapping.update(i, d));
    assert(next.finish == s.finish.update(i, f));
    assert(next.scheduled == s.scheduled.update(i, true));
    assert(next.available == s.available.insert(d.0, f));
    assert forall|a: int| 0 <= a < b implies #[trigger] plan.order[a] != i by {
        assert(plan.order.contains(plan.order[a]));
        assert(s.scheduled[plan.order[a]]);
    }
    assert forall|a: int| 0 <= a < b implies #[trigger] after.order[a] == plan.order[a] by {}
    assert(after.order[b] == i);
    // The new node is timed.
    lemma_start(dag, devices, rank, nodes, s, plan, after, next.mapping, i, d, begin);
    assert forall|c: int, t: int|
        0 <= c < places.len() && #[trigger] can_start(
            dag,
            next.mapping,
            after,
            b,
            device_at(node, devices, c),
            t,
        ) implies f <= capped(t + cost_at(node, devices, c)) && (c < m ==> f < capped(
        t + cost_at(node, devices, c),
    )) by {
        let other = devices[places[c]];
        lemma_start(dag, devices, rank, nodes, s, plan, after, next.mapping, i, other.id, t);
        assert(s.finish_on(dag, i, other) <= capped(t + cost_at(node, devices, c)));
        assert(f <= s.finish_on(dag, i, devices[places[c]]));
    }
    assert(is_chosen(dag, devices, next.mapping, after, b, m));
    assert(is_timed(dag, devices, next.mapping, after, b));
    assert forall|k: int| 0 <= k < after.order.len() implies #[trigger] is_timed(
        dag,
        devices,
        next.mapping,
        after,
        k,
    ) by {
        if k < b {
            assert(is_timed(dag, devices, s.mapping, plan, k));
            lemma_still_timed(dag, devices, s.mapping, plan, next.mapping, after, k);
        }
    }
    // The remaining nodes.
    assert forall|k: int| 0 <= k < left.len() implies (#[trigger] left[k]) == nodes[if k < at {
        k
    } else {
        k + 1
    }] by {}
    assert forall|k: int| 0 <= k < left.len() implies #[trigger] left[k] != i by {
        let j = if k < at {
            k
        } else {
            k + 1
        };
        assert(nodes[j] != nodes[at]);
    }
    assert forall|j: int| 0 <= j < n implies (#[trigger] next.scheduled[j]
        <==> after.order.contains(j)) by {
        search::lemma_push(plan.order, i, j);
        assert(s.scheduled[j] <==> plan.order.contains(j));
    }
    assert forall|j: int| 0 <= j < n implies (#[trigger] next.scheduled[j] || left.contains(j)) by {
        assert(s.scheduled[j] || nodes.contains(j));
        if !s.scheduled[j] && j != i {
            let k = choose|k: int| 0 <= k < nodes.len() && nodes[k] == j;
            if k < at {
                assert(left[k] == j);
            } else {
                assert(left[k - 1] == j);
            }
        }
    }
    assert(falls(rank, after.order)) by {
        assert forall|a: int, c: int| 0 <= a < c < after.order.len() implies rank[
        #[trigger] after.order[a]] > rank[#[trigger] after.order[c]] || (rank[after.order[a]]
            == rank[after.order[c]] && after.order[a] < after.order[c]) by {
            assert(after.order[a] == plan.order[a]);
            if c < b {
                assert(after.order[c] == plan.order[c]);
            } else {
                assert(after.order[c] == nodes[at]);
            }
        }
    }
    assert forall|a: int, k: int| 0 <= a < after.order.len() && 0 <= k < left.len() implies rank[
    #[trigger] after.order[a]] > rank[#[trigger] left[k]] || (rank[after.order[a]]
        == rank[left[k]] && after.order[a] < left[k]) by {
        let j = if k < at {
            k
        } else {
            k + 1
        };
        assert(left[k] == nodes[j]);
        if a < b {
            assert(after.order[a] == plan.order[a]);
        } else {
            assert(after.order[a] == i);
        }
    }
    // Devices are free after what was mapped to them.
    assert forall|e: DeviceId| #[trigger] next.free_at(e) == if e == d {
        f
    } else {
        s.free_at(e)
    } by {}
    assert(s.free_at(d) <= f);
    assert forall|a: int| 0 <= a < after.order.len() implies next.free_at(
        next.mapping[#[trigger] after.order[a]],
    ) >= next.finish[after.order[a]] by {
        if a < b {
            assert(after.order[a] == plan.order[a]);
            assert(s.free_at(s.mapping[plan.order[a]]) >= s.finish[plan.order[a]]);
        }
    }
    assert forall|e: DeviceId|
        (#[trigger] next.free_at(e)) == 0 || exists|a: int|
            0 <= a < after.order.len() && next.mapping[#[trigger] after.order[a]] == e
                && next.finish[after.order[a]] == next.free_at(e) by {
        if e == d {
            assert(next.mapping[after.order[b]] == e);
        } else if s.free_at(e) != 0 {
            let a = choose|a: int|
                0 <= a < plan.order.len() && s.mapping[#[trigger] plan.order[a]] == e
                    && s.finish[plan.order[a]] == s.free_at(e);
            assert(next.mapping[after.order[a]] == e);
        }
    }
    after
}

proof fn lemma_all(
    dag: DagTask,
    devices: Seq<DeviceConfig>,
    rank: Seq<u128>,
    nodes: Seq<int>,
    s: PlanState,
    plan: Timetable,
) -> (last: Timetable)
    requires
        devices.len() > 0,
        holds(dag, devices, rank, nodes, s, plan),
    ensures
        holds(
            dag,
            devices,
            rank,
            Seq::empty(),
            heft::mapped_all(dag, devices, rank, nodes, s),
            last,
        ),
    decreases nodes.len(),
{
    if nodes.len() == 0 {
        assert(nodes =~= Seq::empty());
        plan
    } else {
        let at = heft::first_greatest(rank, nodes);
        lemma_greatest(rank, nodes);
        let next = lemma_step(dag, devices, rank, nodes, s, plan);
        lemma_all(
            dag,
            devices,
            rank,
            nodes.remove(at),
            s.placed(dag, devices, nodes[at]),
            next,
        )
    }
}

/// A plan has a timetable. Its nodes are mapped in the order of falling rank.
/// A node starts no earlier than each predecessor that was mapped before has
/// finished, and, where that went to another device, its bytes have come over;
/// nor before what was mapped to its own device. It is mapped to the candidate
/// on which it finishes first under these bounds, the first one listed where
/// several tie.
pub proof fn law_plans_finish_each_node_early(
    dag: DagTask,
    devices: Seq<DeviceConfig>,
    rank: Seq<u128>,
) -> (plan: Timetable)
    requires
        devices.len() > 0,
        rank.len() == dag.nodes@.len(),
    ensures
        is_timetable(dag, devices, rank, heft::mapping_of(dag, devices, rank), plan),
{
    let n = dag.nodes@.len();
    let nodes: Seq<int> = Seq::new(n, |i: int| i);
    let s = heft::unmapped(dag, devices);
    let none = Timetable {
        order: Seq::empty(),
        start: Seq::new(n, |i: int| 0int),
        finish: Seq::new(n, |i: int| 0int),
    };
    assert forall|i: int| 0 <= i < n implies (#[trigger] s.scheduled[i] || nodes.contains(i)) by {
        assert(nodes[i] == i);
    }
    assert(holds(dag, devices, rank, nodes, s, none));
    let plan = lemma_all(dag, devices, rank, nodes, s, none);
    let last = heft::mapped_all(dag, devices, rank, nodes, s);
    assert forall|i: int| 0 <= i < n implies #[trigger] plan.order.contains(i) by {
        assert(last.scheduled[i] || Seq::<int>::empty().contains(i));
    }
    plan
}

/// The worst time of an execution time model.
pub open spec fn worst_of(model: ExecutionTimeModel) -> u64 {
    match model {
        ExecutionTimeModel::Deterministic { wcet } => wcet,
        ExecutionTimeModel::Stochastic { wcet, .. } => wcet,
        ExecutionTimeModel::MixedCriticality { wcet_hi, .. } => wcet_hi,
    }
}

/// A node costs the worst time of the first model that is given for the device
/// type, else that of the first model given, else one.
pub proof fn law_costs_are_the_first_given(node: SubTask, dt: DeviceType, m: int)
    ensures
        0 <= m < node.exec_times@.len() && node.exec_times@[m].0 == dt && (forall|j: int|
            0 <= j < m ==> (#[trigger] node.exec_times@[j]).0 != dt) ==> heft::cost_on(node, dt)
            == worst_of(node.exec_times@[m].1),
        (forall|j: int|
            0 <= j < node.exec_times@.len() ==> (#[trigger] node.exec_times@[j]).0 != dt)
            && node.exec_times@.len() > 0 ==> heft::cost_on(node, dt) == worst_of(
            node.exec_times@[0].1,
        ),
        node.exec_times@.len() == 0 ==> heft::cost_on(node, dt) == 1,
{
    lemma_model(node.exec_times@, dt, m);
}

pub(crate) proof fn lemma_model(times: Seq<(DeviceType, ExecutionTimeModel)>, dt: DeviceType, m: int)
    ensures
        0 <= m < times.len() && times[m].0 == dt && (forall|j: int|
            0 <= j < m ==> (#[trigger] times[j]).0 != dt) ==> task::model_index(times, dt) == Some(
            m,
        ),
        (forall|j: int| 0 <= j < times.len() ==> (#[trigger] times[j]).0 != dt)
            ==> task::model_index(times, dt) is None,
        task::model_index(times, dt) matches Some(i) ==> 0 <= i < times.len() && times[i].0 == dt,
    decreases times.len(),
{
    if times.len() > 0 {
        let rest = times.drop_last();
        lemma_model(rest, dt, m);
        assert forall|j: int| 0 <= j < rest.len() implies rest[j] == #[trigger] times[j] by {}
        if m == rest.len() && times[m].0 == dt && (forall|j: int|
            0 <= j < m ==> (#[trigger] times[j]).0 != dt) {
            assert forall|j: int| 0 <= j < rest.len() implies (#[trigger] rest[j]).0 != dt by {
                assert(times[j].0 != dt);
            }
        }
        if forall|j: int| 0 <= j < times.len() ==> (#[trigger] times[j]).0 != dt {
            assert forall|j: int| 0 <= j < rest.len() implies (#[trigger] rest[j]).0 != dt by {
                assert(times[j].0 != dt);
            }
            assert(times[times.len() - 1].0 != dt);
        }
    }
}

/// An edge carries the bytes of the first dependency that names its source,
/// and none where no dependency does.
pub proof fn law_edges_carry_the_first_bytes_named(dag: DagTask, from: int, to: int, m: int)
    requires
        0 <= to < dag.nodes@.len(),
    ensures
        0 <= m < dag.nodes@[to].data_deps@.len() && dag.nodes@[to].data_deps@[m].0 == from && (
        forall|j: int| 0 <= j < m ==> (#[trigger] dag.nodes@[to].data_deps@[j]).0 != from)
            ==> heft::bytes_on(dag, from, to) == dag.nodes@[to].data_deps@[m].1,
        (forall|j: int|
            0 <= j < dag.nodes@[to].data_deps@.len() ==> (#[trigger] dag.nodes@[to].data_deps@[j]).0
                != from) ==> heft::bytes_on(dag, from, to) == 0,
{
    lemma_bytes(dag.nodes@[to].data_deps@, from, m);
}

proof fn lemma_bytes(deps: Seq<(usize, u64)>, from: int, m: int)
    ensures
        0 <= m < deps.len() && deps[m].0 == from && (forall|j: int|
            0 <= j < m ==> (#[trigger] deps[j]).0 != from) ==> heft::dependency_bytes(deps, from)
            == deps[m].1,
        (forall|j: int| 0 <= j < deps.len() ==> (#[trigger] deps[j]).0 != from)
            ==> heft::dependency_bytes(deps, from) == 0,
    decreases deps.len(),
{
    if deps.len() > 0 {
        let rest = deps.drop_first();
        lemma_bytes(rest, from, m - 1);
        assert forall|j: int| 0 <= j < rest.len() implies rest[j] == #[trigger] deps[j + 1] by {}
        if deps[0].0 != from {
            if forall|j: int| 0 <= j < deps.len() ==> (#[trigger] deps[j]).0 != from {
                assert forall|j: int| 0 <= j < rest.len() implies (#[trigger] rest[j]).0
                    != from by {
                    assert(deps[j + 1].0 != from);
                }
            }
            if 0 <= m < deps.len() && deps[m].0 == from && (forall|j: int|
                0 <= j < m ==> (#[trigger] deps[j]).0 != from) {
                assert(rest[m - 1] == deps[m]);
                assert forall|j: int| 0 <= j < m - 1 implies (#[trigger] rest[j]).0 != from by {
                    assert(deps[j + 1].0 != from);
                }
            }
        }
    }
}

proof fn lemma_places(devices: Seq<DeviceConfig>, dt: DeviceType, p: int)
    ensures
        placement::places_of_type(devices, dt).contains(p) <==> 0 <= p < devices.len()
            && devices[p].device_type == dt,
    decreases devices.len(),
{
    if devices.len() > 0 {
        let rest = devices.drop_last();
        lemma_places(rest, dt, p);
        search::lemma_push(placement::places_of_type(rest, dt), devices.len() - 1, p);
    }
}

pub(crate) proof fn lemma_compatible(affinity: Seq<DeviceType>, devices: Seq<DeviceConfig>, p: int)
    ensures
        placement::compatible_places(affinity, devices).contains(p) <==> 0 <= p < devices.len()
            && affinity.contains(devices[p].device_type),
    decreases affinity.len(),
{
    if affinity.len() > 0 {
        let rest = affinity.drop_last();
        lemma_compatible(rest, devices, p);
        lemma_places(devices, affinity.last(), p);
        search::lemma_sum(
            placement::compatible_places(rest, devices),
            placement::places_of_type(devices, affinity.last()),
            p,
        );
        if 0 <= p < devices.len() {
            search::lemma_last(affinity, devices[p].device_type);
        }
    }
}

/// The candidates of a node are the devices of the types that it asks for, and
/// all devices where there is none of these.
pub proof fn law_candidates_are_compatible(node: SubTask, devices: Seq<DeviceConfig>, p: int)
    ensures
        heft::candidates(node, devices).contains(p) <==> 0 <= p < devices.len() && (
        node.affinity@.contains(devices[p].device_type) || forall|q: int|
            0 <= q < devices.len() ==> !node.affinity@.contains(
                (#[trigger] devices[q]).device_type,
            )),
{
    let places = placement::compatible_places(node.affinity@, devices);
    let all = heft::candidates(node, devices);
    lemma_compatible(node.affinity@, devices, p);
    if places.len() == 0 {
        assert forall|q: int| 0 <= q < devices.len() implies !node.affinity@.contains(
            (#[trigger] devices[q]).device_type,
        ) by {
            lemma_compatible(node.affinity@, devices, q);
        }
        if 0 <= p < devices.len() {
            assert(all[p] == p);
        }
    } else {
        lemma_compatible(node.affinity@, devices, places[0]);
        assert(places.contains(places[0]));
        assert(node.affinity@.contains(devices[places[0]].device_type));
    }
}

/// The costs of a node over a list of devices.
pub open spec fn costs(node: SubTask, places: Seq<int>, devices: Seq<DeviceConfig>) -> Seq<int> {
    places.map_values(|p: int| heft::cost_on(node, devices[p].device_type) as int)
}

/// The sum of a list of numbers.
pub open spec fn sum_of(numbers: Seq<int>) -> int {
    numbers.fold_left(0int, |total: int, n: int| total + n)
}

proof fn lemma_total(node: SubTask, places: Seq<int>, devices: Seq<DeviceConfig>)
    ensures
        heft::total_cost(node, places, devices) == capped(sum_of(costs(node, places, devices))),
        sum_of(costs(node, places, devices)) >= 0,
    decreases places.len(),
{
    let all = costs(node, places, devices);
    reveal_with_fuel(Seq::fold_left, 2);
    if places.len() > 0 {
        lemma_total(node, places.drop_last(), devices);
        assert(all.drop_last() =~= costs(node, places.drop_last(), devices));
        assert(all.last() == heft::cost_on(node, devices[places.last()].device_type));
    }
}

/// The average cost of a node is the sum of its costs on the candidates over
/// their number, in units, rounded down; without a device it is one.
pub proof fn law_averages_are_over_candidates(
    node: SubTask,
    devices: Seq<DeviceConfig>,
    unit: u64,
)
    ensures
        heft::candidates(node, devices).len() == 0 ==> heft::average_cost(node, devices, unit)
            == unit,
        heft::candidates(node, devices).len() > 0 && sum_of(
            costs(node, heft::candidates(node, devices), devices),
        ) * unit <= u128::MAX && unit > 0 ==> {
            let count = heft::candidates(node, devices).len() as int;
            let total = sum_of(costs(node, heft::candidates(node, devices), devices));
            let average = heft::average_cost(node, devices, unit);
            average * count <= total * unit && total * unit < average * count + count
        },
{
    let places = heft::candidates(node, devices);
    lemma_total(node, places, devices);
    let total = sum_of(costs(node, places, devices));
    if places.len() > 0 && total * unit <= u128::MAX && unit > 0 {
        let count = places.len() as int;
        let scaled = total * unit;
        assert(total <= scaled && scaled >= 0) by (nonlinear_arith)
            requires
                scaled == total * unit,
                total >= 0,
                unit > 0,
        ;
        let average = scaled / count;
        assert(0 <= average <= scaled && average * count <= scaled && scaled < average * count
            + count) by (nonlinear_arith)
            requires
                average == scaled / count,
                count > 0,
                scaled >= 0,
        ;
    }
}

/// What a node passes on along an edge: the bytes of the edge, in units, and
/// the rank of the successor.
pub open spec fn passed_on(dag: DagTask, rank: Seq<u128>, unit: u64, k: int) -> int {
    let e = dag.edges@[k];
    capped(heft::bytes_on(dag, e.0 as int, e.1 as int) * unit + rank[e.1 as int])
}

/// Whether an edge leads from a node to another of the DAG.
pub open spec fn leaves(dag: DagTask, i: int, k: int) -> bool {
    &&& 0 <= k < dag.edges@.len()
    &&& dag.edges@[k].0 == i
    &&& dag.edges@[k].0 < dag.nodes@.len()
    &&& dag.edges@[k].1 < dag.nodes@.len()
}

proof fn lemma_downstream(dag: DagTask, n: int, i: int, rank: Seq<u128>, unit: u64)
    requires
        0 <= n <= dag.edges@.len(),
        rank.len() == dag.nodes@.len(),
    ensures
        forall|k: int|
            k < n && #[trigger] leaves(dag, i, k) ==> heft::downstream(
                dag,
                dag.edges@.take(n),
                i,
                rank,
                unit,
            ) >= passed_on(dag, rank, unit, k),
        heft::downstream(dag, dag.edges@.take(n), i, rank, unit) == 0 || exists|k: int|
            k < n && #[trigger] leaves(dag, i, k) && heft::downstream(
                dag,
                dag.edges@.take(n),
                i,
                rank,
                unit,
            ) == passed_on(dag, rank, unit, k),
    decreases n,
{
    if n > 0 {
        let edges = dag.edges@.take(n);
        let e = dag.edges@[n - 1];
        assert(edges.drop_last() =~= dag.edges@.take(n - 1));
        assert(edges.last() == e);
        lemma_downstream(dag, n - 1, i, rank, unit);
        let bytes = heft::bytes_on(dag, i, e.1 as int);
        assert(0 <= bytes * unit <= u64::MAX * u64::MAX) by (nonlinear_arith)
            requires
                bytes <= u64::MAX,
                unit <= u64::MAX,
        ;
        assert(leaves(dag, i, n - 1) <==> e.0 == i && heft::joins(dag, e));
        let rest = heft::downstream(dag, dag.edges@.take(n - 1), i, rank, unit);
        let all = heft::downstream(dag, edges, i, rank, unit);
        if rest != 0 && all == rest {
            let k = choose|k: int|
                k < n - 1 && #[trigger] leaves(dag, i, k) && rest == passed_on(dag, rank, unit, k);
            assert(leaves(dag, i, k) && all == passed_on(dag, rank, unit, k));
        }
    }
}

/// The rank of a node is its average cost and the most that it passes on along
/// an edge: no edge passes on more, and some edge as much, unless it is
/// nothing.
pub proof fn law_ranks_add_up_along_edges(
    dag: DagTask,
    devices: Seq<DeviceConfig>,
    rank: Seq<u128>,
    i: int,
) -> (most: int)
    requires
        heft::upward_ranks(dag, devices, rank),
        0 <= i < rank.len(),
    ensures
        rank[i] == capped(
            heft::average_cost(
                dag.nodes@[i],
                devices,
                heft::rank_unit(dag.nodes@, devices),
            ) + most,
        ),
        forall|k: int| #[trigger]
            leaves(dag, i, k) ==> most >= passed_on(
                dag,
                rank,
                heft::rank_unit(dag.nodes@, devices),
                k,
            ),
        most == 0 || exists|k: int| #[trigger]
            leaves(dag, i, k) && most == passed_on(
                dag,
                rank,
                heft::rank_unit(dag.nodes@, devices),
                k,
            ),
{
    let unit = heft::rank_unit(dag.nodes@, devices);
    let n = dag.edges@.len() as int;
    assert(heft::rank_holds(dag, devices, rank, i));
    assert(dag.edges@.take(n) =~= dag.edges@);
    lemma_downstream(dag, n, i, rank, unit);
    heft::downstream(dag, dag.edges@, i, rank, unit) as int
}

} // verus!

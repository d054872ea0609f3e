//! Heterogeneous earliest finish time: upward ranks, list mapping and the
//! scheduler that follows the plan.

use crate::dag::DagInstanceId;
use crate::device::DeviceConfig;
use crate::ids::{DeviceId, TaskId};
use crate::job::Job;
use crate::scheduler::{
    self, Action, ReevaluationPolicy, ReevaluationTrigger, Scheduler, SchedulerView, Sight,
};
use crate::schedulers::{fixed_priority, placement};
use crate::task::{self, CriticalityLevel, DagTask, DeviceType, SubTask, Task};
use std::collections::HashMap;
use vstd::prelude::*;

verus! {

broadcast use vstd::std_specs::hash::group_hash_axioms;

/// Upward ranks and device mapping of a DAG, by node position.
#[derive(Debug, Clone)]
pub struct HeftPlan {
    /// Upward rank of each node, in units of `1 / rank_unit`.
    pub rank_u: Vec<u128>,
    /// How many units of rank make one unit of cost.
    pub rank_unit: u64,
    pub device_mapping: Vec<DeviceId>,
}

/// `a + b`, held at the largest `u128`.
pub open spec fn sum(a: u128, b: u128) -> u128 {
    if a + b > u128::MAX {
        u128::MAX
    } else {
        (a + b) as u128
    }
}

/// The larger of two numbers.
pub open spec fn larger(a: u128, b: u128) -> u128 {
    if a < b {
        b
    } else {
        a
    }
}

/// Cost of a node on a device type: the WCET given for the type, else the
/// first one given, else one.
pub open spec fn cost_on(node: SubTask, dt: DeviceType) -> u64 {
    match task::model_index(node.exec_times@, dt) {
        Some(i) => node.exec_times@[i].1.worst(),
        None => if node.exec_times@.len() > 0 {
            node.exec_times@[0].1.worst()
        } else {
            1
        },
    }
}

/// The places of the devices a node may be mapped to: the compatible ones, or
/// all where there is none.
pub open spec fn candidates(node: SubTask, devices: Seq<DeviceConfig>) -> Seq<int> {
    let places = placement::compatible_places(node.affinity@, devices);
    if places.len() == 0 {
        Seq::new(devices.len(), |i: int| i)
    } else {
        places
    }
}

/// Total cost of a node over a list of devices.
pub open spec fn total_cost(node: SubTask, places: Seq<int>, devices: Seq<DeviceConfig>) -> u128
    decreases places.len(),
{
    if places.len() == 0 {
        0
    } else {
        sum(
            total_cost(node, places.drop_last(), devices),
            cost_on(node, devices[places.last()].device_type) as u128,
        )
    }
}

/// How finely ranks are held: a common multiple of the numbers of candidates
/// of the nodes, so that no average is rounded. A number with which it would
/// no longer fit is left out.
pub open spec fn rank_unit(nodes: Seq<SubTask>, devices: Seq<DeviceConfig>) -> u64
    decreases nodes.len(),
{
    if nodes.len() == 0 {
        1
    } else {
        let unit = rank_unit(nodes.drop_last(), devices);
        let count = candidates(nodes.last(), devices).len() as int;
        if count == 0 || unit as int % count == 0 || unit * count > u64::MAX {
            unit
        } else {
            (unit * count) as u64
        }
    }
}

/// Average cost of a node over its candidates, in units of `1 / unit`; one
/// where there is no device.
pub open spec fn average_cost(node: SubTask, devices: Seq<DeviceConfig>, unit: u64) -> u128 {
    let places = candidates(node, devices);
    if places.len() == 0 {
        unit as u128
    } else {
        let scaled = total_cost(node, places, devices) * unit;
        ((if scaled > u128::MAX {
            u128::MAX as int
        } else {
            scaled
        }) / (places.len() as int)) as u128
    }
}

/// Bytes named by the first dependency on a predecessor.
pub open spec fn dependency_bytes(deps: Seq<(usize, u64)>, from: int) -> u64
    decreases deps.len(),
{
    if deps.len() == 0 {
        0
    } else if deps[0].0 == from {
        deps[0].1
    } else {
        dependency_bytes(deps.drop_first(), from)
    }
}

/// Bytes that an edge carries.
pub open spec fn bytes_on(dag: DagTask, from: int, to: int) -> u64 {
    if 0 <= to < dag.nodes@.len() {
        dependency_bytes(dag.nodes@[to].data_deps@, from)
    } else {
        0
    }
}

/// Whether an edge joins two nodes of the DAG.
pub open spec fn joins(dag: DagTask, e: (usize, usize)) -> bool {
    e.0 < dag.nodes@.len() && e.1 < dag.nodes@.len()
}

/// The most that follows node `i`: over its edges, the communication and the
/// rank of the successor.
pub open spec fn downstream(
    dag: DagTask,
    edges: Seq<(usize, usize)>,
    i: int,
    rank: Seq<u128>,
    unit: u64,
) -> u128
    decreases edges.len(),
{
    if edges.len() == 0 {
        0
    } else {
        let rest = downstream(dag, edges.drop_last(), i, rank, unit);
        let e = edges.last();
        if e.0 == i && joins(dag, e) {
            larger(
                rest,
                sum((bytes_on(dag, i, e.1 as int) * unit) as u128, rank[e.1 as int]),
            )
        } else {
            rest
        }
    }
}

/// The rank equation of node `i`.
pub open spec fn rank_holds(
    dag: DagTask,
    devices: Seq<DeviceConfig>,
    rank: Seq<u128>,
    i: int,
) -> bool {
    let unit = rank_unit(dag.nodes@, devices);
    rank[i] == sum(
        average_cost(dag.nodes@[i], devices, unit),
        downstream(dag, dag.edges@, i, rank, unit),
    )
}

/// Whether `rank` holds the upward ranks of a DAG: the average cost of each
/// node and the most that follows it.
pub open spec fn upward_ranks(
    dag: DagTask,
    devices: Seq<DeviceConfig>,
    rank: Seq<u128>,
) -> bool {
    &&& rank.len() == dag.nodes@.len()
    &&& forall|i: int| 0 <= i < rank.len() ==> #[trigger] rank_holds(dag, devices, rank, i)
}

/// Whether heights fall along every edge.
pub open spec fn falls(dag: DagTask, height: Seq<nat>) -> bool {
    &&& height.len() == dag.nodes@.len()
    &&& forall|k: int|
        0 <= k < dag.edges@.len() && joins(dag, #[trigger] dag.edges@[k])
            ==> height[dag.edges@[k].0 as int] > height[dag.edges@[k].1 as int]
}

/// Whether a DAG has no cycle: its nodes have heights that fall along every
/// edge.
pub open spec fn acyclic(dag: DagTask) -> bool {
    exists|height: Seq<nat>| falls(dag, height)
}

/// State of a mapping in progress.
#[verifier::ext_equal]
pub ghost struct PlanState {
    pub mapping: Seq<DeviceId>,
    pub finish: Seq<u128>,
    pub scheduled: Seq<bool>,
    pub available: Map<u32, u128>,
}

impl PlanState {
    /// When a device is next free.
    pub open spec fn free_at(self, d: DeviceId) -> u128 {
        if self.available.contains_key(d.0) {
            self.available[d.0]
        } else {
            0
        }
    }

    /// When the data of all predecessors of node `i` is on device `d`.
    pub open spec fn ready_at(
        self,
        dag: DagTask,
        edges: Seq<(usize, usize)>,
        i: int,
        d: DeviceId,
    ) -> u128
        decreases edges.len(),
    {
        if edges.len() == 0 {
            0
        } else {
            let rest = self.ready_at(dag, edges.drop_last(), i, d);
            let e = edges.last();
            if e.1 == i && joins(dag, e) {
                let moved = self.scheduled[e.0 as int] && self.mapping[e.0 as int] != d;
                larger(
                    rest,
                    sum(
                        self.finish[e.0 as int],
                        if moved {
                            bytes_on(dag, e.0 as int, i) as u128
                        } else {
                            0
                        },
                    ),
                )
            } else {
                rest
            }
        }
    }

    /// Earliest finish time of node `i` on a device.
    pub open spec fn finish_on(self, dag: DagTask, i: int, device: DeviceConfig) -> u128 {
        sum(
            larger(self.ready_at(dag, dag.edges@, i, device.id), self.free_at(device.id)),
            cost_on(dag.nodes@[i], device.device_type) as u128,
        )
    }

    /// The device of a list on which node `i` finishes first, the first one
    /// where several tie, with the finish time.
    pub open spec fn earliest(
        self,
        dag: DagTask,
        i: int,
        places: Seq<int>,
        devices: Seq<DeviceConfig>,
    ) -> Option<(DeviceId, u128)>
        decreases places.len(),
    {
        if places.len() == 0 {
            None
        } else {
            let device = devices[places.last()];
            let finish = self.finish_on(dag, i, device);
            match self.earliest(dag, i, places.drop_last(), devices) {
                Some((d, f)) => if finish < f {
                    Some((device.id, finish))
                } else {
                    Some((d, f))
                },
                None => Some((device.id, finish)),
            }
        }
    }

    /// Node `i` mapped.
    pub open spec fn placed(self, dag: DagTask, devices: Seq<DeviceConfig>, i: int) -> PlanState {
        match self.earliest(dag, i, candidates(dag.nodes@[i], devices), devices) {
            Some((d, f)) => PlanState {
                mapping: self.mapping.update(i, d),
                finish: self.finish.update(i, f),
                scheduled: self.scheduled.update(i, true),
                available: self.available.insert(d.0, f),
            },
            None => self,
        }
    }
}

/// The place of the first node of greatest rank in a list of nodes.
pub open spec fn first_greatest(rank: Seq<u128>, nodes: Seq<int>) -> int
    decreases nodes.len(),
{
    if nodes.len() <= 1 {
        0
    } else {
        let at = first_greatest(rank, nodes.drop_last());
        if rank[nodes.last()] > rank[nodes[at]] {
            nodes.len() - 1
        } else {
            at
        }
    }
}

/// A list of nodes mapped by falling rank.
pub open spec fn mapped_all(
    dag: DagTask,
    devices: Seq<DeviceConfig>,
    rank: Seq<u128>,
    nodes: Seq<int>,
    s: PlanState,
) -> PlanState
    decreases nodes.len(),
{
    if nodes.len() == 0 {
        s
    } else {
        let at = first_greatest(rank, nodes);
        if 0 <= at < nodes.len() {
            mapped_all(
                dag,
                devices,
                rank,
                nodes.remove(at),
                s.placed(dag, devices, nodes[at]),
            )
        } else {
            s
        }
    }
}

/// The state before any node is mapped.
pub open spec fn unmapped(dag: DagTask, devices: Seq<DeviceConfig>) -> PlanState {
    let n = dag.nodes@.len();
    PlanState {
        mapping: Seq::new(n, |i: int| devices[0].id),
        finish: Seq::new(n, |i: int| 0u128),
        scheduled: Seq::new(n, |i: int| false),
        available: Map::empty(),
    }
}

/// The device of each node: nodes by falling rank, each to the candidate on
/// which it finishes first.
pub open spec fn mapping_of(dag: DagTask, devices: Seq<DeviceConfig>, rank: Seq<u128>) -> Seq<
    DeviceId,
> {
    if devices.len() == 0 {
        Seq::empty()
    } else {
        mapped_all(
            dag,
            devices,
            rank,
            Seq::new(dag.nodes@.len(), |i: int| i),
            unmapped(dag, devices),
        ).mapping
    }
}

/// Adds, held at the largest `u128`.
fn add_up(a: u128, b: u128) -> (r: u128)
    ensures
        r == sum(a, b),
{
    a.saturating_add(b)
}

/// Finds the cost of a node on a device type.
fn exec_cost_on(node: &SubTask, dt: DeviceType) -> (cost: u64)
    ensures
        cost == cost_on(*node, dt),
{
    match task::find_model(&node.exec_times, dt) {
        Some(i) => node.exec_times[i].1.wcet(),
        None => if node.exec_times.len() > 0 {
            node.exec_times[0].1.wcet()
        } else {
            1
        },
    }
}

/// Lists the places of the devices a node may be mapped to.
fn candidate_devices(node: &SubTask, devices: &[DeviceConfig]) -> (places: Vec<usize>)
    ensures
        places@.map_values(|p: usize| p as int) == candidates(*node, devices@),
        forall|i: int| 0 <= i < places@.len() ==> #[trigger] places@[i] < devices@.len(),
        devices@.len() > 0 ==> places@.len() > 0,
{
    let places: Vec<usize> = placement::list_places(&node.affinity, devices);
    if places.len() > 0 {
        return places;
    }
    let mut all: Vec<usize> = Vec::new();
    let mut i: usize = 0;
    while i < devices.len()
        invariant
            i <= devices@.len(),
            all@.len() == i,
            forall|j: int| 0 <= j < i ==> #[trigger] all@[j] == j,
        decreases devices@.len() - i,
    {
        all.push(i);
        i = i + 1;
    }
    proof {
        assert(all@.map_values(|p: usize| p as int) =~= candidates(*node, devices@));
    }
    all
}

/// Finds how finely ranks are held.
fn find_rank_unit(nodes: &Vec<SubTask>, devices: &[DeviceConfig]) -> (unit: u64)
    ensures
        unit == rank_unit(nodes@, devices@),
{
    let mut unit: u64 = 1;
    let mut i: usize = 0;
    while i < nodes.len()
        invariant
            i <= nodes@.len(),
            unit == rank_unit(nodes@.take(i as int), devices@),
        decreases nodes@.len() - i,
    {
        proof {
            assert(nodes@.take(i as int + 1).drop_last() =~= nodes@.take(i as int));
        }
        let places: Vec<usize> = candidate_devices(&nodes[i], devices);
        let count: u64 = places.len() as u64;
        proof {
            assert(candidates(nodes@[i as int], devices@).len() == count);
        }
        if count > 0 && unit % count != 0 {
            if let Some(product) = unit.checked_mul(count) {
                unit = product;
            }
        }
        i = i + 1;
    }
    proof {
        assert(nodes@.take(i as int) =~= nodes@);
    }
    unit
}

/// Computes the average cost of a node.
fn avg_compute_cost(node: &SubTask, devices: &[DeviceConfig], unit: u64) -> (cost: u128)
    ensures
        cost == average_cost(*node, devices@, unit),
{
    let places: Vec<usize> = candidate_devices(node, devices);
    let ghost at_places = candidates(*node, devices@);
    if places.len() == 0 {
        return unit as u128;
    }
    let mut total: u128 = 0;
    let mut i: usize = 0;
    while i < places.len()
        invariant
            i <= places@.len(),
            at_places == places@.map_values(|p: usize| p as int),
            forall|k: int| 0 <= k < places@.len() ==> #[trigger] places@[k] < devices@.len(),
            total == total_cost(*node, at_places.take(i as int), devices@),
        decreases places@.len() - i,
    {
        proof {
            assert(at_places.take(i as int + 1).drop_last() =~= at_places.take(i as int));
        }
        total = add_up(total, exec_cost_on(node, devices[places[i]].device_type) as u128);
        i = i + 1;
    }
    proof {
        assert(at_places.take(i as int) =~= at_places);
    }
    let scaled: u128 = match total.checked_mul(unit as u128) {
        Some(p) => p,
        None => u128::MAX,
    };
    scaled / places.len() as u128
}

/// Finds the bytes that an edge carries.
fn edge_bytes(dag: &DagTask, from: usize, to: usize) -> (bytes: u64)
    ensures
        bytes == bytes_on(*dag, from as int, to as int),
{
    if to >= dag.nodes.len() {
        return 0;
    }
    let deps: &Vec<(usize, u64)> = &dag.nodes[to].data_deps;
    let mut i: usize = 0;
    proof {
        assert(deps@.skip(0) =~= deps@);
    }
    while i < deps.len()
        invariant
            i <= deps@.len(),
            to < dag.nodes@.len(),
            deps@ == dag.nodes@[to as int].data_deps@,
            dependency_bytes(deps@, from as int) == dependency_bytes(
                deps@.skip(i as int),
                from as int,
            ),
        decreases deps@.len() - i,
    {
        proof {
            assert(deps@.skip(i as int).drop_first() =~= deps@.skip(i as int + 1));
        }
        if deps[i].0 == from {
            return deps[i].1;
        }
        i = i + 1;
    }
    0
}

/// Whether all successors of a node are done.
spec fn successors_done(dag: DagTask, i: int, done: Seq<bool>) -> bool {
    forall|k: int|
        0 <= k < dag.edges@.len() && (#[trigger] dag.edges@[k]).0 == i && joins(dag, dag.edges@[k])
            ==> done[dag.edges@[k].1 as int]
}

/// What follows a node depends on the ranks of its successors only.
proof fn lemma_downstream_same(
    dag: DagTask,
    n: int,
    i: int,
    a: Seq<u128>,
    b: Seq<u128>,
    unit: u64,
)
    requires
        0 <= n <= dag.edges@.len(),
        forall|k: int|
            0 <= k < dag.edges@.len() && (#[trigger] dag.edges@[k]).0 == i && joins(
                dag,
                dag.edges@[k],
            ) ==> a[dag.edges@[k].1 as int] == b[dag.edges@[k].1 as int],
    ensures
        downstream(dag, dag.edges@.take(n), i, a, unit) == downstream(
            dag,
            dag.edges@.take(n),
            i,
            b,
            unit,
        ),
    decreases n,
{
    if n > 0 {
        assert(dag.edges@.take(n).drop_last() =~= dag.edges@.take(n - 1));
        assert(dag.edges@.take(n).last() == dag.edges@[n - 1]);
        lemma_downstream_same(dag, n - 1, i, a, b, unit);
    }
}

/// Where heights fall and every open node waits for another open one, no node
/// is open.
proof fn lemma_all_done(dag: DagTask, done: Seq<bool>, height: Seq<nat>, i: int)
    requires
        falls(dag, height),
        done.len() == dag.nodes@.len(),
        0 <= i < done.len(),
        forall|j: int|
            0 <= j < done.len() && !(#[trigger] done[j]) ==> !successors_done(dag, j, done),
    ensures
        done[i],
    decreases height[i],
{
    if !done[i] {
        assert(!successors_done(dag, i, done));
        let k = choose|k: int|
            0 <= k < dag.edges@.len() && (#[trigger] dag.edges@[k]).0 == i && joins(
                dag,
                dag.edges@[k],
            ) && !done[dag.edges@[k].1 as int];
        lemma_all_done(dag, done, height, dag.edges@[k].1 as int);
    }
}

/// Computes what follows a node.
fn most_downstream(dag: &DagTask, i: usize, rank: &Vec<u128>, unit: u64) -> (most: u128)
    requires
        rank@.len() == dag.nodes@.len(),
    ensures
        most == downstream(*dag, dag.edges@, i as int, rank@, unit),
{
    let mut most: u128 = 0;
    let mut k: usize = 0;
    while k < dag.edges.len()
        invariant
            k <= dag.edges@.len(),
            rank@.len() == dag.nodes@.len(),
            most == downstream(*dag, dag.edges@.take(k as int), i as int, rank@, unit),
        decreases dag.edges@.len() - k,
    {
        proof {
            assert(dag.edges@.take(k as int + 1).drop_last() =~= dag.edges@.take(k as int));
        }
        let (u, v): (usize, usize) = dag.edges[k];
        if u == i && u < dag.nodes.len() && v < dag.nodes.len() {
            let bytes: u64 = edge_bytes(dag, u, v);
            proof {
                assert(bytes * unit <= u64::MAX * u64::MAX) by (nonlinear_arith)
                    requires
                        bytes <= u64::MAX,
                        unit <= u64::MAX,
                ;
            }
            let comm: u128 = bytes as u128 * unit as u128;
            let path: u128 = add_up(comm, rank[v]);
            if most < path {
                most = path;
            }
        }
        k = k + 1;
    }
    proof {
        assert(dag.edges@.take(k as int) =~= dag.edges@);
    }
    most
}

/// Tells whether all successors of a node are done.
fn all_successors_done(dag: &DagTask, i: usize, done: &Vec<bool>) -> (yes: bool)
    requires
        done@.len() == dag.nodes@.len(),
    ensures
        yes == successors_done(*dag, i as int, done@),
{
    let mut k: usize = 0;
    while k < dag.edges.len()
        invariant
            k <= dag.edges@.len(),
            done@.len() == dag.nodes@.len(),
            forall|j: int|
                0 <= j < k && (#[trigger] dag.edges@[j]).0 == i && joins(*dag, dag.edges@[j])
                    ==> done@[dag.edges@[j].1 as int],
        decreases dag.edges@.len() - k,
    {
        let (u, v): (usize, usize) = dag.edges[k];
        if u == i && u < dag.nodes.len() && v < dag.nodes.len() && !done[v] {
            proof {
                assert(dag.edges@[k as int].0 == i);
            }
            return false;
        }
        k = k + 1;
    }
    true
}

/// Computes the upward ranks of a DAG, or finds that it has a cycle.
fn compute_rank_u(dag: &DagTask, devices: &[DeviceConfig], unit: u64) -> (ranks: Option<
    Vec<u128>,
>)
    requires
        unit == rank_unit(dag.nodes@, devices@),
    ensures
        match ranks {
            Some(rank) => acyclic(*dag) && upward_ranks(*dag, devices@, rank@),
            None => !acyclic(*dag),
        },
{
    let n: usize = dag.nodes.len();
    let mut rank: Vec<u128> = Vec::new();
    let mut done: Vec<bool> = Vec::new();
    let mut open: Vec<usize> = Vec::new();
    let mut f: usize = 0;
    while f < n
        invariant
            f <= n,
            rank@.len() == f,
            done@.len() == f,
            open@.len() == f,
            forall|j: int| 0 <= j < f ==> !(#[trigger] done@[j]),
            forall|j: int| 0 <= j < f ==> #[trigger] open@[j] == j,
        decreases n - f,
    {
        rank.push(0);
        done.push(false);
        open.push(f);
        f = f + 1;
    }
    let ghost mut height: Seq<nat> = Seq::new(n as nat, |i: int| 0nat);
    let ghost mut step: nat = 1;
    proof {
        assert forall|i: int| 0 <= i < n && !(#[trigger] done@[i]) implies exists|p: int|
            0 <= p < open@.len() && open@[p] == i by {
            assert(open@[i] == i);
        }
    }
    while open.len() > 0
        invariant
            n == dag.nodes@.len(),
            unit == rank_unit(dag.nodes@, devices@),
            rank@.len() == n,
            done@.len() == n,
            height.len() == n,
            forall|p: int| 0 <= p < open@.len() ==> #[trigger] open@[p] < n,
            forall|p: int| 0 <= p < open@.len() ==> !done@[(#[trigger] open@[p]) as int],
            forall|p: int, q: int| 0 <= p < q < open@.len() ==> open@[p] != open@[q],
            forall|i: int|
                0 <= i < n && !(#[trigger] done@[i]) ==> exists|p: int|
                    0 <= p < open@.len() && open@[p] == i,
            forall|i: int|
                0 <= i < n && #[trigger] done@[i] ==> successors_done(*dag, i, done@)
                    && rank_holds(*dag, devices@, rank@, i) && height[i] < step,
            forall|k: int|
                0 <= k < dag.edges@.len() && joins(*dag, #[trigger] dag.edges@[k])
                    && done@[dag.edges@[k].0 as int] ==> height[dag.edges@[k].0 as int]
                    > height[dag.edges@[k].1 as int],
        decreases open@.len(),
    {
        let mut p: usize = 0;
        while p < open.len() && !all_successors_done(dag, open[p], &done)
            invariant
                p <= open@.len(),
                done@.len() == dag.nodes@.len(),
                forall|q: int|
                    0 <= q < p ==> !successors_done(*dag, (#[trigger] open@[q]) as int, done@),
            decreases open@.len() - p,
        {
            p = p + 1;
        }
        if p >= open.len() {
            proof {
                assert forall|j: int| 0 <= j < done@.len() && !(#[trigger] done@[j]) implies
                    !successors_done(*dag, j, done@) by {
                    let q = choose|q: int| 0 <= q < open@.len() && open@[q] == j;
                    assert(!successors_done(*dag, open@[q] as int, done@));
                }
                if acyclic(*dag) {
                    let h = choose|h: Seq<nat>| falls(*dag, h);
                    lemma_all_done(*dag, done@, h, open@[0] as int);
                }
            }
            return None;
        }
        let i: usize = open[p];
        let ghost old_rank = rank@;
        let ghost old_done = done@;
        let ghost old_height = height;
        let ghost old_open = open@;
        let value: u128 = add_up(
            avg_compute_cost(&dag.nodes[i], devices, unit),
            most_downstream(dag, i, &rank, unit),
        );
        rank.set(i, value);
        done.set(i, true);
        open.remove(p);
        proof {
            height = height.update(i as int, step);
            step = step + 1;
            assert(!old_done[i as int]);
            assert(dag.edges@.take(dag.edges@.len() as int) =~= dag.edges@);
            assert forall|j: int| 0 <= j < n && #[trigger] done@[j] implies successors_done(
                *dag,
                j,
                done@,
            ) && rank_holds(*dag, devices@, rank@, j) && height[j] < step by {
                if j != i {
                    assert(old_done[j]);
                    assert(successors_done(*dag, j, old_done));
                    assert(rank_holds(*dag, devices@, old_rank, j));
                } else {
                    assert(successors_done(*dag, j, old_done));
                }
                assert forall|k: int|
                    0 <= k < dag.edges@.len() && (#[trigger] dag.edges@[k]).0 == j && joins(
                        *dag,
                        dag.edges@[k],
                    ) implies done@[dag.edges@[k].1 as int] && old_rank[dag.edges@[k].1 as int]
                    == rank@[dag.edges@[k].1 as int] by {
                    assert(old_done[dag.edges@[k].1 as int]);
                }
                lemma_downstream_same(*dag, dag.edges@.len() as int, j, old_rank, rank@, unit);
            }
            assert forall|k: int|
                0 <= k < dag.edges@.len() && joins(*dag, #[trigger] dag.edges@[k])
                    && done@[dag.edges@[k].0 as int] implies height[dag.edges@[k].0 as int]
                > height[dag.edges@[k].1 as int] by {
                let a = dag.edges@[k].0 as int;
                let b = dag.edges@[k].1 as int;
                if a != i {
                    assert(old_done[a]);
                    assert(successors_done(*dag, a, old_done));
                    assert(old_done[b]);
                } else {
                    assert(successors_done(*dag, a, old_done));
                    assert(old_done[b]);
                    assert(old_height[b] < step - 1);
                }
            }
            assert(open@ =~= old_open.remove(p as int));
            assert forall|j: int| 0 <= j < n && !(#[trigger] done@[j]) implies exists|q: int|
                0 <= q < open@.len() && open@[q] == j by {
                assert(!old_done[j]);
                let q = choose|q: int| 0 <= q < old_open.len() && old_open[q] == j;
                if q < p {
                    assert(open@[q] == j);
                } else {
                    assert(q != p);
                    assert(open@[q - 1] == j);
                }
            }
            assert forall|q: int| 0 <= q < open@.len() implies !done@[(
            #[trigger] open@[q]) as int] by {
                if q < p {
                    assert(open@[q] == old_open[q]);
                } else {
                    assert(open@[q] == old_open[q + 1]);
                }
                assert(old_open[p as int] == i);
            }
        }
    }
    proof {
        assert forall|i: int| 0 <= i < n implies #[trigger] done@[i] by {
            if !done@[i] {
                let q = choose|q: int| 0 <= q < open@.len() && open@[q] == i;
                assert(false);
            }
        }
        assert forall|i: int| 0 <= i < n implies #[trigger] rank_holds(
            *dag,
            devices@,
            rank@,
            i,
        ) by {
            assert(done@[i]);
        }
        assert forall|k: int|
            0 <= k < dag.edges@.len() && joins(*dag, #[trigger] dag.edges@[k])
                implies height[dag.edges@[k].0 as int] > height[dag.edges@[k].1 as int] by {
            assert(done@[dag.edges@[k].0 as int]);
        }
        assert(falls(*dag, height));
    }
    Some(rank)
}

/// Checks that a DAG has no cycle.
pub fn is_acyclic(dag: &DagTask) -> (yes: bool)
    ensures
        yes == acyclic(*dag),
{
    let none: Vec<DeviceConfig> = Vec::new();
    let unit: u64 = find_rank_unit(&dag.nodes, none.as_slice());
    match compute_rank_u(dag, none.as_slice(), unit) {
        Some(_) => true,
        None => false,
    }
}

/// The product of the numbers of candidates of nodes that have any.
pub open spec fn candidate_product(nodes: Seq<SubTask>, devices: Seq<DeviceConfig>) -> nat
    decreases nodes.len(),
{
    if nodes.len() == 0 {
        1
    } else {
        let rest = candidate_product(nodes.drop_last(), devices);
        let count = candidates(nodes.last(), devices).len();
        if count == 0 {
            rest
        } else {
            rest * count
        }
    }
}

proof fn lemma_unit_below_product(nodes: Seq<SubTask>, devices: Seq<DeviceConfig>)
    ensures
        1 <= rank_unit(nodes, devices) <= candidate_product(nodes, devices),
    decreases nodes.len(),
{
    if nodes.len() > 0 {
        lemma_unit_below_product(nodes.drop_last(), devices);
        let unit = rank_unit(nodes.drop_last(), devices) as int;
        let rest = candidate_product(nodes.drop_last(), devices) as int;
        let count = candidates(nodes.last(), devices).len() as int;
        if count > 0 {
            assert(1 <= unit * count <= rest * count && unit <= rest * count) by (nonlinear_arith)
                requires
                    1 <= unit <= rest,
                    1 <= count,
            ;
        }
    }
}

/// The unit of rank is a multiple of the number of candidates of every node,
/// wherever the product of these numbers fits.
pub proof fn law_rank_unit_is_common_multiple(
    nodes: Seq<SubTask>,
    devices: Seq<DeviceConfig>,
    i: int,
)
    requires
        candidate_product(nodes, devices) <= u64::MAX,
        0 <= i < nodes.len(),
        candidates(nodes[i], devices).len() > 0,
    ensures
        rank_unit(nodes, devices) as int % candidates(nodes[i], devices).len() as int == 0,
    decreases nodes.len(),
{
    let before = nodes.drop_last();
    lemma_unit_below_product(before, devices);
    let unit = rank_unit(before, devices) as int;
    let rest = candidate_product(before, devices) as int;
    let count = candidates(nodes.last(), devices).len() as int;
    if count > 0 {
        assert(unit * count <= rest * count && rest <= rest * count) by (nonlinear_arith)
            requires
                1 <= unit <= rest,
                1 <= count,
        ;
    }
    let own = candidates(nodes[i], devices).len() as int;
    if i < nodes.len() - 1 {
        assert(before[i] == nodes[i]);
        law_rank_unit_is_common_multiple(before, devices, i);
        if rank_unit(nodes, devices) != unit {
            vstd::arithmetic::div_mod::lemma_fundamental_div_mod(unit, own);
            let times = unit / own;
            assert(unit * count == own * (times * count)) by (nonlinear_arith)
                requires
                    unit == own * times,
            ;
            vstd::arithmetic::div_mod::lemma_mod_multiples_basic(times * count, own);
            assert((times * count) * own == own * (times * count)) by (nonlinear_arith);
        }
    } else if unit % count != 0 {
        vstd::arithmetic::div_mod::lemma_mod_multiples_basic(unit, count);
    }
}

/// An average is not rounded where the unit is a multiple of the number of
/// candidates.
pub proof fn law_averages_are_exact(node: SubTask, devices: Seq<DeviceConfig>, unit: u64)
    requires
        candidates(node, devices).len() > 0,
        unit as int % candidates(node, devices).len() as int == 0,
        total_cost(node, candidates(node, devices), devices) * unit <= u128::MAX,
    ensures
        average_cost(node, devices, unit) * candidates(node, devices).len() == total_cost(
            node,
            candidates(node, devices),
            devices,
        ) * unit,
{
    let count = candidates(node, devices).len() as int;
    let total = total_cost(node, candidates(node, devices), devices) as int;
    let unit = unit as int;
    vstd::arithmetic::div_mod::lemma_fundamental_div_mod(unit, count);
    let times = unit / count;
    assert(total * unit == (total * times) * count) by (nonlinear_arith)
        requires
            unit == count * times,
    ;
    vstd::arithmetic::div_mod::lemma_div_by_multiple(total * times, count);
    assert(0 <= total * times <= total * unit) by (nonlinear_arith)
        requires
            unit == count * times,
            count >= 1,
            total >= 0,
            unit >= 0,
    ;
}

/// Two tables of upward ranks of an acyclic DAG are the same.
pub proof fn law_upward_ranks_are_unique(
    dag: DagTask,
    devices: Seq<DeviceConfig>,
    a: Seq<u128>,
    b: Seq<u128>,
)
    requires
        acyclic(dag),
        upward_ranks(dag, devices, a),
        upward_ranks(dag, devices, b),
    ensures
        a == b,
{
    let h = choose|h: Seq<nat>| falls(dag, h);
    assert forall|i: int| 0 <= i < a.len() implies a[i] == b[i] by {
        lemma_rank_unique(dag, devices, a, b, h, i);
    }
    assert(a =~= b);
}

/// A node's rank is the same in two tables.
proof fn lemma_rank_unique(
    dag: DagTask,
    devices: Seq<DeviceConfig>,
    a: Seq<u128>,
    b: Seq<u128>,
    h: Seq<nat>,
    i: int,
)
    requires
        falls(dag, h),
        upward_ranks(dag, devices, a),
        upward_ranks(dag, devices, b),
        0 <= i < a.len(),
    ensures
        a[i] == b[i],
    decreases h[i],
{
    assert forall|k: int|
        0 <= k < dag.edges@.len() && (#[trigger] dag.edges@[k]).0 == i && joins(dag, dag.edges@[k])
            implies a[dag.edges@[k].1 as int] == b[dag.edges@[k].1 as int] by {
        lemma_rank_unique(dag, devices, a, b, h, dag.edges@[k].1 as int);
    }
    assert(dag.edges@.take(dag.edges@.len() as int) =~= dag.edges@);
    lemma_downstream_same(
        dag,
        dag.edges@.len() as int,
        i,
        a,
        b,
        rank_unit(dag.nodes@, devices),
    );
    assert(rank_holds(dag, devices, a, i));
    assert(rank_holds(dag, devices, b, i));
}

/// A node ranks at least as high as each of its successors, so that a node is
/// mapped before what depends on it.
pub proof fn law_rank_covers_successors(
    dag: DagTask,
    devices: Seq<DeviceConfig>,
    rank: Seq<u128>,
    k: int,
)
    requires
        upward_ranks(dag, devices, rank),
        0 <= k < dag.edges@.len(),
        joins(dag, dag.edges@[k]),
    ensures
        rank[dag.edges@[k].0 as int] >= rank[dag.edges@[k].1 as int],
{
    let i = dag.edges@[k].0 as int;
    lemma_downstream_covers(
        dag,
        dag.edges@.len() as int,
        i,
        rank,
        k,
        rank_unit(dag.nodes@, devices),
    );
    assert(dag.edges@.take(dag.edges@.len() as int) =~= dag.edges@);
    assert(rank_holds(dag, devices, rank, i));
}

/// What follows a node is at least the rank of each successor.
proof fn lemma_downstream_covers(
    dag: DagTask,
    n: int,
    i: int,
    rank: Seq<u128>,
    k: int,
    unit: u64,
)
    requires
        0 <= k < n <= dag.edges@.len(),
        dag.edges@[k].0 == i,
        joins(dag, dag.edges@[k]),
    ensures
        downstream(dag, dag.edges@.take(n), i, rank, unit) >= rank[dag.edges@[k].1 as int],
    decreases n,
{
    assert(dag.edges@.take(n).drop_last() =~= dag.edges@.take(n - 1));
    assert(dag.edges@.take(n).last() == dag.edges@[n - 1]);
    if k < n - 1 {
        lemma_downstream_covers(dag, n - 1, i, rank, k, unit);
    }
}

/// Mapping in progress.
struct PlanTables {
    mapping: Vec<DeviceId>,
    finish: Vec<u128>,
    scheduled: Vec<bool>,
    available: HashMap<u32, u128>,
}

impl PlanTables {
    spec fn state(&self) -> PlanState {
        PlanState {
            mapping: self.mapping@,
            finish: self.finish@,
            scheduled: self.scheduled@,
            available: self.available@,
        }
    }

    spec fn sized(&self, n: nat) -> bool {
        self.mapping@.len() == n && self.finish@.len() == n && self.scheduled@.len() == n
    }

    /// Tables before any node is mapped.
    fn new(dag: &DagTask, devices: &[DeviceConfig]) -> (t: Self)
        requires
            devices@.len() > 0,
        ensures
            t.state() == unmapped(*dag, devices@),
            t.sized(dag.nodes@.len()),
    {
        let n: usize = dag.nodes.len();
        let mut mapping: Vec<DeviceId> = Vec::new();
        let mut finish: Vec<u128> = Vec::new();
        let mut scheduled: Vec<bool> = Vec::new();
        let mut i: usize = 0;
        while i < n
            invariant
                i <= n,
                devices@.len() > 0,
                mapping@ =~= Seq::new(i as nat, |j: int| devices@[0].id),
                finish@ =~= Seq::new(i as nat, |j: int| 0u128),
                scheduled@ =~= Seq::new(i as nat, |j: int| false),
            decreases n - i,
        {
            mapping.push(devices[0].id);
            finish.push(0);
            scheduled.push(false);
            i = i + 1;
        }
        let t = PlanTables { mapping, finish, scheduled, available: HashMap::new() };
        proof {
            assert(t.state() =~= unmapped(*dag, devices@));
        }
        t
    }

    /// Computes when the data of all predecessors of a node is on a device.
    fn ready_at(&self, dag: &DagTask, i: usize, d: DeviceId) -> (ready: u128)
        requires
            self.sized(dag.nodes@.len()),
        ensures
            ready == self.state().ready_at(*dag, dag.edges@, i as int, d),
    {
        let mut ready: u128 = 0;
        let mut k: usize = 0;
        while k < dag.edges.len()
            invariant
                k <= dag.edges@.len(),
                self.sized(dag.nodes@.len()),
                ready == self.state().ready_at(*dag, dag.edges@.take(k as int), i as int, d),
            decreases dag.edges@.len() - k,
        {
            proof {
                assert(dag.edges@.take(k as int + 1).drop_last() =~= dag.edges@.take(k as int));
            }
            let (u, v): (usize, usize) = dag.edges[k];
            if v == i && u < dag.nodes.len() && v < dag.nodes.len() {
                let comm: u128 = if self.scheduled[u] && self.mapping[u] != d {
                    edge_bytes(dag, u, v) as u128
                } else {
                    0
                };
                let there: u128 = add_up(self.finish[u], comm);
                if ready < there {
                    ready = there;
                }
            }
            k = k + 1;
        }
        proof {
            assert(dag.edges@.take(k as int) =~= dag.edges@);
        }
        ready
    }

    /// Computes the earliest finish time of a node on a device.
    fn finish_on(&self, dag: &DagTask, i: usize, device: &DeviceConfig) -> (finish: u128)
        requires
            self.sized(dag.nodes@.len()),
            i < dag.nodes@.len(),
        ensures
            finish == self.state().finish_on(*dag, i as int, *device),
    {
        let ready: u128 = self.ready_at(dag, i, device.id);
        let free: u128 = match self.available.get(&device.id.0) {
            Some(t) => *t,
            None => 0,
        };
        let start: u128 = if ready < free {
            free
        } else {
            ready
        };
        add_up(start, exec_cost_on(&dag.nodes[i], device.device_type) as u128)
    }

    /// Maps one node.
    fn place(&mut self, dag: &DagTask, devices: &[DeviceConfig], i: usize)
        requires
            old(self).sized(dag.nodes@.len()),
            i < dag.nodes@.len(),
        ensures
            final(self).sized(dag.nodes@.len()),
            final(self).state() == old(self).state().placed(*dag, devices@, i as int),
    {
        let places: Vec<usize> = candidate_devices(&dag.nodes[i], devices);
        let ghost at_places = candidates(dag.nodes@[i as int], devices@);
        let mut best: Option<(DeviceId, u128)> = None;
        let mut k: usize = 0;
        while k < places.len()
            invariant
                k <= places@.len(),
                self.sized(dag.nodes@.len()),
                i < dag.nodes@.len(),
                at_places == places@.map_values(|p: usize| p as int),
                forall|j: int| 0 <= j < places@.len() ==> #[trigger] places@[j] < devices@.len(),
                best == self.state().earliest(
                    *dag,
                    i as int,
                    at_places.take(k as int),
                    devices@,
                ),
                *self == *old(self),
            decreases places@.len() - k,
        {
            proof {
                assert(at_places.take(k as int + 1).drop_last() =~= at_places.take(k as int));
            }
            let device: &DeviceConfig = &devices[places[k]];
            let finish: u128 = self.finish_on(dag, i, device);
            best = match best {
                Some((d, f)) => if finish < f {
                    Some((device.id, finish))
                } else {
                    Some((d, f))
                },
                None => Some((device.id, finish)),
            };
            k = k + 1;
        }
        proof {
            assert(at_places.take(k as int) =~= at_places);
        }
        if let Some((d, f)) = best {
            self.mapping.set(i, d);
            self.finish.set(i, f);
            self.scheduled.set(i, true);
            self.available.insert(d.0, f);
        }
    }
}

/// Maps the nodes of a DAG by falling rank.
fn map_nodes(dag: &DagTask, devices: &[DeviceConfig], rank: &Vec<u128>) -> (mapping: Vec<DeviceId>)
    requires
        rank@.len() == dag.nodes@.len(),
    ensures
        mapping@ == mapping_of(*dag, devices@, rank@),
{
    if devices.len() == 0 {
        return Vec::new();
    }
    let n: usize = dag.nodes.len();
    let mut tables: PlanTables = PlanTables::new(dag, devices);
    let mut open: Vec<usize> = Vec::new();
    let mut f: usize = 0;
    while f < n
        invariant
            f <= n,
            open@.len() == f,
            forall|j: int| 0 <= j < f ==> #[trigger] open@[j] == j,
        decreases n - f,
    {
        open.push(f);
        f = f + 1;
    }
    let ghost nodes: Seq<int> = Seq::new(n as nat, |i: int| i);
    let ghost mut left: Seq<int> = nodes;
    while open.len() > 0
        invariant
            n == dag.nodes@.len(),
            rank@.len() == n,
            tables.sized(n as nat),
            left.len() == open@.len(),
            forall|j: int| 0 <= j < open@.len() ==> #[trigger] open@[j] < n,
            forall|j: int| 0 <= j < open@.len() ==> #[trigger] left[j] == open@[j],
            mapped_all(*dag, devices@, rank@, left, tables.state()) == mapped_all(
                *dag,
                devices@,
                rank@,
                nodes,
                unmapped(*dag, devices@),
            ),
        decreases open@.len(),
    {
        let mut at: usize = 0;
        let mut k: usize = 1;
        while k < open.len()
            invariant
                1 <= k <= open@.len(),
                at < k,
                rank@.len() == n,
                left.len() == open@.len(),
                forall|j: int| 0 <= j < open@.len() ==> #[trigger] open@[j] < n,
                forall|j: int| 0 <= j < open@.len() ==> #[trigger] left[j] == open@[j],
                at == first_greatest(rank@, left.take(k as int)),
            decreases open@.len() - k,
        {
            proof {
                assert(left.take(k as int + 1).drop_last() =~= left.take(k as int));
                assert(left[k as int] == open@[k as int]);
                assert(left[at as int] == open@[at as int]);
            }
            if rank[open[k]] > rank[open[at]] {
                at = k;
            }
            k = k + 1;
        }
        proof {
            assert(left.take(k as int) =~= left);
            assert(left[at as int] == open@[at as int]);
        }
        let i: usize = open[at];
        tables.place(dag, devices, i);
        let ghost old_open = open@;
        let ghost old_left = left;
        open.remove(at);
        proof {
            left = left.remove(at as int);
            assert forall|j: int| 0 <= j < open@.len() implies #[trigger] left[j] == open@[j]
                && open@[j] < n by {
                if j < at {
                    assert(left[j] == old_left[j]);
                    assert(open@[j] == old_open[j]);
                    assert(old_left[j] == old_open[j]);
                } else {
                    assert(left[j] == old_left[j + 1]);
                    assert(open@[j] == old_open[j + 1]);
                    assert(old_left[j + 1] == old_open[j + 1]);
                }
            }
        }
    }
    tables.mapping
}

/// Plans of DAG tasks.
#[derive(Debug)]
pub struct HeftPlanner {
    plans: HashMap<u32, HeftPlan>,
}

impl HeftPlanner {
    /// The plan of each planned DAG task.
    pub closed spec fn plans(&self) -> Map<u32, HeftPlan> {
        self.plans@
    }

    /// Plans a DAG task. A task that has a plan keeps it.
    pub fn build_plan(&mut self, dag: &DagTask, devices: &[DeviceConfig]) -> (plan: &HeftPlan)
        requires
            acyclic(*dag),
        ensures
            final(self).plans().contains_key(dag.id.0),
            final(self).plans()[dag.id.0] == *plan,
            old(self).plans().contains_key(dag.id.0) ==> final(self).plans() == old(self).plans(),
            !old(self).plans().contains_key(dag.id.0) ==> {
                &&& final(self).plans() == old(self).plans().insert(dag.id.0, *plan)
                &&& plan.rank_unit == rank_unit(dag.nodes@, devices@)
                &&& upward_ranks(*dag, devices@, plan.rank_u@)
                &&& plan.device_mapping@ == mapping_of(*dag, devices@, plan.rank_u@)
            },
    {
        let id: u32 = dag.id.0;
        if !self.plans.contains_key(&id) {
            let rank_unit: u64 = find_rank_unit(&dag.nodes, devices);
            if let Some(rank_u) = compute_rank_u(dag, devices, rank_unit) {
                let device_mapping: Vec<DeviceId> = map_nodes(dag, devices, &rank_u);
                self.plans.insert(id, HeftPlan { rank_u, rank_unit, device_mapping });
            }
        }
        self.plans.get(&id).unwrap()
    }

    /// Looks up the plan of a DAG task.
    pub fn plan_for(&self, dag_id: TaskId) -> (plan: Option<&HeftPlan>)
        ensures
            match plan {
                Some(p) => self.plans().contains_key(dag_id.0) && self.plans()[dag_id.0] == *p,
                None => !self.plans().contains_key(dag_id.0),
            },
    {
        self.plans.get(&dag_id.0)
    }
}

impl Default for HeftPlanner {
    fn default() -> (p: Self)
        ensures
            p.plans() == Map::<u32, HeftPlan>::empty(),
    {
        HeftPlanner { plans: HashMap::new() }
    }
}

/// Runtime HEFT scheduler (single-DAG baseline).
#[derive(Debug)]
pub struct HeftScheduler {
    pub planner: HeftPlanner,
    instance_plans: HashMap<u64, HeftPlan>,
}

/// The device that the plan of its DAG instance names for a job.
pub open spec fn planned(plans: Map<u64, HeftPlan>, job: &Job) -> Option<DeviceId> {
    match job.dag_provenance {
        Some(prov) => if plans.contains_key(prov.dag_instance_id.0) && prov.node.0 < plans[
            prov.dag_instance_id.0
        ].device_mapping@.len() {
            Some(plans[prov.dag_instance_id.0].device_mapping@[prov.node.0 as int])
        } else {
            None
        },
        None => None,
    }
}

/// The device that an arriving job goes to: the planned one where it is there,
/// else the least loaded compatible one.
pub open spec fn target(
    plans: Map<u64, HeftPlan>,
    job: &Job,
    task: &Task,
    view: Sight,
) -> Option<DeviceId> {
    match planned(plans, job) {
        Some(d) if view.device_at(d) is Some => Some(d),
        _ => placement::least_loaded(view, view.compatible_with(task), false),
    }
}

/// What an arriving job does. Running jobs are never preempted.
pub open spec fn arrival(
    plans: Map<u64, HeftPlan>,
    job: &Job,
    task: &Task,
    view: Sight,
) -> Seq<Action> {
    match target(plans, job, task, view) {
        Some(d) => if view.running_at(d) is None {
            seq![Action::Dispatch { job_id: job.id, device_id: d }]
        } else {
            seq![Action::Enqueue { job_id: job.id, device_id: d }]
        },
        None => seq![Action::NoOp],
    }
}

impl HeftScheduler {
    /// The plan of each DAG instance.
    pub closed spec fn plans(&self) -> Map<u64, HeftPlan> {
        self.instance_plans@
    }

    /// The plan of each planned DAG task.
    pub closed spec fn task_plans(&self) -> Map<u32, HeftPlan> {
        self.planner.plans()
    }

    /// Sets the plan that jobs of a DAG instance follow.
    pub fn set_instance_plan(&mut self, instance_id: DagInstanceId, plan: HeftPlan)
        ensures
            final(self).plans() == old(self).plans().insert(instance_id.0, plan),
            final(self).task_plans() == old(self).task_plans(),
    {
        self.instance_plans.insert(instance_id.0, plan);
    }

    /// Finds the device that the plan names for a job.
    fn planned_device_for(&self, job: &Job) -> (d: Option<DeviceId>)
        ensures
            d == planned(self.plans(), job),
    {
        match job.dag_provenance {
            Some(prov) => match self.instance_plans.get(&prov.dag_instance_id.0) {
                Some(plan) => {
                    let node: usize = prov.node.0 as usize;
                    if node < plan.device_mapping.len() {
                        Some(plan.device_mapping[node])
                    } else {
                        None
                    }
                },
                None => None,
            },
            None => None,
        }
    }
}

impl Default for HeftScheduler {
    fn default() -> (s: Self)
        ensures
            s.plans() == Map::<u64, HeftPlan>::empty(),
            s.task_plans() == Map::<u32, HeftPlan>::empty(),
    {
        HeftScheduler { planner: HeftPlanner::default(), instance_plans: HashMap::new() }
    }
}

impl Scheduler for HeftScheduler {
    open spec fn alike(&self, other: &Self) -> bool {
        self.plans() == other.plans()
    }

    open spec fn wants(&self, policy: ReevaluationPolicy) -> bool {
        policy is Disabled
    }

    open spec fn answers_arrival(
        &self,
        job: &Job,
        task: &Task,
        view: Sight,
        actions: Seq<Action>,
        after: &Self,
    ) -> bool {
        &&& actions =~= arrival(self.plans(), job, task, view)
        &&& *after == *self
    }

    open spec fn answers_completion(
        &self,
        job: &Job,
        device_id: DeviceId,
        view: Sight,
        actions: Seq<Action>,
        after: &Self,
    ) -> bool {
        &&& actions =~= scheduler::head_dispatch(view.waiting_at(device_id), device_id)
        &&& *after == *self
    }

    open spec fn answers_point(
        &self,
        device_id: DeviceId,
        running_job: &Job,
        view: Sight,
        actions: Seq<Action>,
        after: &Self,
    ) -> bool {
        &&& actions =~= seq![Action::NoOp]
        &&& *after == *self
    }

    open spec fn answers_change(
        &self,
        new_level: CriticalityLevel,
        trigger_job: &Job,
        view: Sight,
        actions: Seq<Action>,
        after: &Self,
    ) -> bool {
        &&& actions =~= fixed_priority::criticality_change(new_level, view)
        &&& *after == *self
    }

    open spec fn answers_idle(
        &self,
        device_id: DeviceId,
        view: Sight,
        actions: Seq<Action>,
        after: &Self,
    ) -> bool {
        actions =~= scheduler::head_dispatch(view.waiting_at(device_id), device_id) && *after
            == *self
    }

    open spec fn answers_reevaluation(
        &self,
        trigger: ReevaluationTrigger,
        view: Sight,
        actions: Seq<Action>,
        after: &Self,
    ) -> bool {
        actions =~= seq![Action::NoOp] && *after == *self
    }

    fn name(&self) -> (name: &str)
        ensures
            name@ == "HEFT"@,
    {
        "HEFT"
    }

    fn reevaluation_policy(&self) -> (policy: ReevaluationPolicy)
        ensures
            policy is Disabled,
    {
        ReevaluationPolicy::Disabled
    }

    fn on_job_arrival(&mut self, job: &Job, task: &Task, view: &SchedulerView<'_>) -> (actions: Vec<
        Action,
    >)
        ensures
            actions@ == arrival(old(self).plans(), job, task, view@),
            *final(self) == *old(self),
    {
        let named: Option<DeviceId> = match self.planned_device_for(job) {
            Some(d) => match view.device(d) {
                Some(_) => Some(d),
                None => None,
            },
            None => None,
        };
        let chosen: Option<DeviceId> = match named {
            Some(d) => Some(d),
            None => {
                let ids: Vec<DeviceId> = view.compatible_devices(task);
                placement::pick_least_loaded(view, &ids, false)
            },
        };
        match chosen {
            Some(d) => match view.running_on_device(d) {
                None => vec![Action::Dispatch { job_id: job.id, device_id: d }],
                Some(_) => vec![Action::Enqueue { job_id: job.id, device_id: d }],
            },
            None => vec![Action::NoOp],
        }
    }

    fn on_job_complete(
        &mut self,
        _job: &Job,
        device_id: DeviceId,
        view: &SchedulerView<'_>,
    ) -> (actions: Vec<Action>)
        ensures
            actions@ == scheduler::head_dispatch(view.waiting_at(device_id), device_id),
            *final(self) == *old(self),
    {
        scheduler::dispatch_head(device_id, view)
    }

    fn on_preemption_point(
        &mut self,
        _device_id: DeviceId,
        _running_job: &Job,
        _view: &SchedulerView<'_>,
    ) -> (actions: Vec<Action>)
        ensures
            actions@ == seq![Action::NoOp],
            *final(self) == *old(self),
    {
        vec![Action::NoOp]
    }

    fn on_criticality_change(
        &mut self,
        new_level: CriticalityLevel,
        _trigger_job: &Job,
        view: &SchedulerView<'_>,
    ) -> (actions: Vec<Action>)
        ensures
            actions@ == fixed_priority::criticality_change(new_level, view@),
            *final(self) == *old(self),
    {
        fixed_priority::change_criticality(new_level, view)
    }

    fn on_device_idle(&mut self, device_id: DeviceId, view: &SchedulerView<'_>) -> (actions: Vec<
        Action,
    >)
        ensures
            actions@ == scheduler::head_dispatch(view.waiting_at(device_id), device_id),
            *final(self) == *old(self),
    {
        scheduler::dispatch_head(device_id, view)
    }

    fn on_reevaluation(
        &mut self,
        _trigger: ReevaluationTrigger,
        _view: &SchedulerView<'_>,
    ) -> (actions: Vec<Action>)
        ensures
            actions@ == seq![Action::NoOp],
            *final(self) == *old(self),
    {
        vec![Action::NoOp]
    }
}

/// Whether a device is one of the candidates of a node.
pub open spec fn is_candidate(node: SubTask, devices: Seq<DeviceConfig>, d: DeviceId) -> bool {
    exists|k: int|
        0 <= k < candidates(node, devices).len() && devices[#[trigger] candidates(
            node,
            devices,
        )[k]].id == d
}

/// Every node is mapped to one of its candidates.
pub proof fn law_nodes_go_to_candidates(dag: DagTask, devices: Seq<DeviceConfig>, rank: Seq<u128>)
    requires
        devices.len() > 0,
    ensures
        mapping_of(dag, devices, rank).len() == dag.nodes@.len(),
        forall|i: int|
            0 <= i < dag.nodes@.len() ==> is_candidate(
                dag.nodes@[i],
                devices,
                #[trigger] mapping_of(dag, devices, rank)[i],
            ),
{
    let nodes: Seq<int> = Seq::new(dag.nodes@.len(), |i: int| i);
    assert forall|i: int| 0 <= i < dag.nodes@.len() implies nodes.contains(i) by {
        assert(nodes[i] == i);
    }
    lemma_mapped_to_candidates(dag, devices, rank, nodes, unmapped(dag, devices));
}

/// Every node that is mapped, or still to be mapped, ends at a candidate.
proof fn lemma_mapped_to_candidates(
    dag: DagTask,
    devices: Seq<DeviceConfig>,
    rank: Seq<u128>,
    nodes: Seq<int>,
    s: PlanState,
)
    requires
        devices.len() > 0,
        s.mapping.len() == dag.nodes@.len(),
        forall|p: int| 0 <= p < nodes.len() ==> 0 <= #[trigger] nodes[p] < dag.nodes@.len(),
        forall|i: int|
            0 <= i < dag.nodes@.len() ==> nodes.contains(i) || is_candidate(
                dag.nodes@[i],
                devices,
                #[trigger] s.mapping[i],
            ),
    ensures
        mapped_all(dag, devices, rank, nodes, s).mapping.len() == dag.nodes@.len(),
        forall|i: int|
            0 <= i < dag.nodes@.len() ==> is_candidate(
                dag.nodes@[i],
                devices,
                #[trigger] mapped_all(dag, devices, rank, nodes, s).mapping[i],
            ),
    decreases nodes.len(),
{
    if nodes.len() > 0 {
        let at = first_greatest(rank, nodes);
        lemma_first_greatest_in_range(rank, nodes);
        let i = nodes[at];
        let places = candidates(dag.nodes@[i], devices);
        placement::lemma_places_in_range(dag.nodes@[i].affinity@, devices);
        lemma_earliest_is_listed(s, dag, i, places, devices);
        let t = s.placed(dag, devices, i);
        let rest = nodes.remove(at);
        let (d, _) = s.earliest(dag, i, places, devices)->0;
        let k = choose|k: int| 0 <= k < places.len() && devices[#[trigger] places[k]].id == d;
        assert(is_candidate(dag.nodes@[i], devices, d));
        assert forall|j: int| 0 <= j < dag.nodes@.len() implies rest.contains(j) || is_candidate(
            dag.nodes@[j],
            devices,
            #[trigger] t.mapping[j],
        ) by {
            if j != i {
                assert(t.mapping[j] == s.mapping[j]);
                if nodes.contains(j) {
                    let p = choose|p: int| 0 <= p < nodes.len() && nodes[p] == j;
                    if p < at {
                        assert(rest[p] == j);
                    } else {
                        assert(rest[p - 1] == j);
                    }
                }
            }
        }
        assert forall|p: int| 0 <= p < rest.len() implies 0 <= #[trigger] rest[p]
            < dag.nodes@.len() by {
            if p < at {
                assert(rest[p] == nodes[p]);
            } else {
                assert(rest[p] == nodes[p + 1]);
            }
        }
        lemma_mapped_to_candidates(dag, devices, rank, rest, t);
    } else {
        assert forall|i: int| 0 <= i < dag.nodes@.len() implies is_candidate(
            dag.nodes@[i],
            devices,
            #[trigger] s.mapping[i],
        ) by {
            assert(!nodes.contains(i));
        }
    }
}

/// The node of greatest rank is in the list.
proof fn lemma_first_greatest_in_range(rank: Seq<u128>, nodes: Seq<int>)
    requires
        nodes.len() > 0,
    ensures
        0 <= first_greatest(rank, nodes) < nodes.len(),
    decreases nodes.len(),
{
    if nodes.len() > 1 {
        lemma_first_greatest_in_range(rank, nodes.drop_last());
    }
}

/// The device on which a node finishes first is one of the list.
proof fn lemma_earliest_is_listed(
    s: PlanState,
    dag: DagTask,
    i: int,
    places: Seq<int>,
    devices: Seq<DeviceConfig>,
)
    ensures
        s.earliest(dag, i, places, devices) is None <==> places.len() == 0,
        s.earliest(dag, i, places, devices) matches Some((d, _)) ==> exists|k: int|
            0 <= k < places.len() && devices[#[trigger] places[k]].id == d,
    decreases places.len(),
{
    if places.len() > 0 {
        let rest = places.drop_last();
        lemma_earliest_is_listed(s, dag, i, rest, devices);
        if let Some((d, _)) = s.earliest(dag, i, places, devices) {
            if d == devices[places.last()].id {
                assert(devices[places[places.len() - 1]].id == d);
            } else {
                let k = choose|k: int| 0 <= k < rest.len() && devices[#[trigger] rest[k]].id == d;
                assert(devices[places[k]].id == d);
            }
        }
    }
}

/// Whether an edge leads from one node to the next.
pub open spec fn has_edge(dag: DagTask, from: int, to: int) -> bool {
    exists|k: int|
        0 <= k < dag.edges@.len() && joins(dag, #[trigger] dag.edges@[k]) && dag.edges@[k].0 == from
            && dag.edges@[k].1 == to
}

/// A DAG with a path along its edges that comes back to its start has a cycle.
pub proof fn law_paths_back_are_cycles(dag: DagTask, path: Seq<int>)
    requires
        path.len() > 1,
        path[0] == path.last(),
        forall|i: int| 0 < i < path.len() ==> has_edge(dag, path[i - 1], #[trigger] path[i]),
    ensures
        !acyclic(dag),
{
    if acyclic(dag) {
        let height = choose|height: Seq<nat>| falls(dag, height);
        lemma_path_falls(dag, path, height, path.len() - 1);
    }
}

proof fn lemma_path_falls(dag: DagTask, path: Seq<int>, height: Seq<nat>, n: int)
    requires
        0 < n < path.len(),
        falls(dag, height),
        forall|i: int| 0 < i < path.len() ==> has_edge(dag, path[i - 1], #[trigger] path[i]),
    ensures
        height[path[0]] > height[path[n]],
    decreases n,
{
    assert(has_edge(dag, path[n - 1], path[n]));
    let k = choose|k: int|
        0 <= k < dag.edges@.len() && joins(dag, #[trigger] dag.edges@[k]) && dag.edges@[k].0
            == path[n - 1] && dag.edges@[k].1 == path[n];
    assert(height[dag.edges@[k].0 as int] > height[dag.edges@[k].1 as int]);
    if n > 1 {
        lemma_path_falls(dag, path, height, n - 1);
    }
}

} // verus!

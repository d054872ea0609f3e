//! DAG runtime tracking with edge-level dependency tokens.

use crate::dag::{DagInstanceId, DagProvenance, SubTaskIdx};
use crate::ids::TaskId;
use crate::search;
use crate::task;
use crate::task::{ArrivalModel, DagTask, SubTask, Task};
use crate::text;
use vstd::prelude::*;
use vstd::string::*;

verus! {

/// An edge by the indices of its nodes.
pub type EdgeKey = (SubTaskIdx, SubTaskIdx);

/// The data that moves from one node to another.
#[derive(Debug, Clone, Copy, PartialEq, Eq, Structural)]
pub struct EdgeBytes {
    pub from: SubTaskIdx,
    pub to: SubTaskIdx,
    pub bytes: u64,
}

/// The node and the proxy task that runs it.
#[derive(Debug, Clone, Copy, PartialEq, Eq, Structural)]
pub struct NodeProxy {
    pub node: SubTaskIdx,
    pub task_id: TaskId,
}

/// The key of an edge.
pub open spec fn edge_key(edge: (usize, usize)) -> EdgeKey {
    (SubTaskIdx(edge.0 as u32), SubTaskIdx(edge.1 as u32))
}

/// The keys of a list of edges.
pub open spec fn edge_keys(edges: Seq<(usize, usize)>) -> Seq<EdgeKey> {
    Seq::new(edges.len(), |i: int| edge_key(edges[i]))
}

/// Whether an entry is for an edge.
pub open spec fn entry_of(from: SubTaskIdx, to: SubTaskIdx) -> spec_fn(EdgeBytes) -> bool {
    |e: EdgeBytes| e.from == from && e.to == to
}

/// Whether a proxy runs a node.
pub open spec fn runs_node(node: SubTaskIdx) -> spec_fn(NodeProxy) -> bool {
    |p: NodeProxy| p.node == node
}

/// Whether a proxy is a task.
pub open spec fn is_task(task_id: TaskId) -> spec_fn(NodeProxy) -> bool {
    |p: NodeProxy| p.task_id == task_id
}

/// A list of edge data with an entry set.
pub open spec fn with_bytes(list: Seq<EdgeBytes>, entry: EdgeBytes) -> Seq<EdgeBytes> {
    match search::first_where(list, entry_of(entry.from, entry.to)) {
        Some(i) => list.update(i, entry),
        None => list.push(entry),
    }
}

/// A list of edge data with an entry for an edge, a new one of no bytes where
/// there was none.
pub open spec fn with_entry(list: Seq<EdgeBytes>, key: EdgeKey) -> Seq<EdgeBytes> {
    match search::first_where(list, entry_of(key.0, key.1)) {
        Some(_) => list,
        None => list.push(EdgeBytes { from: key.0, to: key.1, bytes: 0 }),
    }
}

/// Edge data with the dependencies of one node set.
pub open spec fn with_deps(
    list: Seq<EdgeBytes>,
    deps: Seq<(usize, u64)>,
    to: SubTaskIdx,
) -> Seq<EdgeBytes>
    decreases deps.len(),
{
    if deps.len() == 0 {
        list
    } else {
        with_bytes(
            with_deps(list, deps.drop_last(), to),
            EdgeBytes { from: SubTaskIdx(deps.last().0 as u32), to, bytes: deps.last().1 },
        )
    }
}

/// Edge data from the dependencies of the nodes.
pub open spec fn dep_bytes(nodes: Seq<SubTask>) -> Seq<EdgeBytes>
    decreases nodes.len(),
{
    if nodes.len() == 0 {
        Seq::empty()
    } else {
        with_deps(
            dep_bytes(nodes.drop_last()),
            nodes.last().data_deps@,
            SubTaskIdx(nodes.last().index as u32),
        )
    }
}

/// Edge data with an entry for every edge.
pub open spec fn with_edges(list: Seq<EdgeBytes>, edges: Seq<(usize, usize)>) -> Seq<EdgeBytes>
    decreases edges.len(),
{
    if edges.len() == 0 {
        list
    } else {
        with_entry(with_edges(list, edges.drop_last()), edge_key(edges.last()))
    }
}

/// The successors of a node with the data that goes there.
pub open spec fn outgoing(list: Seq<EdgeBytes>, from: SubTaskIdx) -> Seq<(SubTaskIdx, u64)>
    decreases list.len(),
{
    if list.len() == 0 {
        Seq::empty()
    } else {
        let rest = outgoing(list.drop_last(), from);
        if list.last().from == from {
            rest.push((list.last().to, list.last().bytes))
        } else {
            rest
        }
    }
}

/// The name of a proxy task.
pub open spec fn proxy_name(instance: DagInstanceId, index: usize) -> Seq<char> {
    "dag-"@ + text::decimal(instance.0 as nat) + "-n"@ + text::decimal(index as nat)
}

/// Whether a task is the proxy of a DAG node.
pub open spec fn is_proxy(
    proxy: Task,
    dag: DagTask,
    node: SubTask,
    task_id: TaskId,
    instance: DagInstanceId,
) -> bool {
    &&& proxy.id == task_id
    &&& proxy.name@ == proxy_name(instance, node.index)
    &&& proxy.priority == 1
    &&& proxy.arrival is Aperiodic
    &&& proxy.deadline == dag.deadline
    &&& proxy.criticality == dag.criticality
    &&& proxy.exec_times@ == node.exec_times@
    &&& proxy.affinity@ == node.affinity@
    &&& proxy.data_size == 0
}

/// A DAG instance: its edges, the proxies of its nodes, the data on its edges
/// and the edges that have been satisfied.
#[verifier::ext_equal]
pub struct DagState {
    pub edges: Seq<(usize, usize)>,
    pub proxies: Seq<NodeProxy>,
    pub bytes: Seq<EdgeBytes>,
    pub satisfied: Seq<EdgeKey>,
}

impl DagState {
    /// The proxy task of a node, the last one where several nodes have one
    /// index.
    pub open spec fn task_of(self, node: SubTaskIdx) -> Option<TaskId> {
        match search::last_where(self.proxies, runs_node(node)) {
            Some(i) => Some(self.proxies[i].task_id),
            None => None,
        }
    }

    /// The node that a proxy task runs, the last one where several proxies have
    /// one id.
    pub open spec fn node_of(self, task_id: TaskId) -> Option<SubTaskIdx> {
        match search::last_where(self.proxies, is_task(task_id)) {
            Some(i) => Some(self.proxies[i].node),
            None => None,
        }
    }

    /// Whether nothing holds a node back: every edge into it is satisfied, and
    /// none is listed twice (the second token of such an edge never comes).
    pub open spec fn released(self, node: SubTaskIdx) -> bool {
        let keys = edge_keys(self.edges);
        forall|i: int|
            0 <= i < keys.len() && (#[trigger] keys[i]).1 == node ==> self.satisfied.contains(
                keys[i],
            ) && !keys.take(i).contains(keys[i])
    }

    /// The state after an edge was satisfied, and the tasks that this releases.
    pub open spec fn marked(self, from: SubTaskIdx, to: SubTaskIdx) -> (DagState, Seq<TaskId>) {
        let key = (from, to);
        if !edge_keys(self.edges).contains(key) || self.satisfied.contains(key) {
            (self, Seq::empty())
        } else {
            let after = DagState { satisfied: self.satisfied.push(key), ..self };
            (
                after,
                if after.released(to) {
                    match after.task_of(to) {
                        Some(task_id) => seq![task_id],
                        None => Seq::empty(),
                    }
                } else {
                    Seq::empty()
                },
            )
        }
    }

    /// The proxy tasks, among the first `n`, of nodes that nothing holds back.
    pub open spec fn ready(self, n: int) -> Seq<TaskId>
        decreases n,
    {
        if n <= 0 {
            Seq::empty()
        } else {
            let rest = self.ready(n - 1);
            let p = self.proxies[n - 1];
            if search::last_where(self.proxies, runs_node(p.node)) == Some(n - 1) && self.released(
                p.node,
            ) {
                rest.push(p.task_id)
            } else {
                rest
            }
        }
    }
}

/// A DAG that has just been registered, whose proxies start at a task id.
pub open spec fn registered(dag: DagTask, base: nat) -> DagState {
    DagState {
        edges: dag.edges@,
        proxies: Seq::new(
            dag.nodes@.len(),
            |i: int|
                NodeProxy {
                    node: SubTaskIdx(dag.nodes@[i].index as u32),
                    task_id: TaskId((base + i) as u32),
                },
        ),
        bytes: with_edges(dep_bytes(dag.nodes@), dag.edges@),
        satisfied: Seq::empty(),
    }
}

/// A running DAG.
#[derive(Debug)]
struct DagInstance {
    edges: Vec<(usize, usize)>,
    proxies: Vec<NodeProxy>,
    bytes: Vec<EdgeBytes>,
    satisfied: Vec<EdgeKey>,
}

impl DagInstance {
    spec fn state(&self) -> DagState {
        DagState {
            edges: self.edges@,
            proxies: self.proxies@,
            bytes: self.bytes@,
            satisfied: self.satisfied@,
        }
    }
}

/// Registration result for a DAG instance.
#[derive(Debug)]
pub struct DagRegistration {
    pub instance_id: DagInstanceId,
    pub ready_task_ids: Vec<TaskId>,
}

/// Tracks DAG instances, node dependency state and the mapping from nodes to
/// proxy tasks. Instances are numbered from zero.
#[derive(Debug)]
pub struct DagTracker {
    instances: Vec<DagInstance>,
}

impl Default for DagTracker {
    fn default() -> (tracker: Self)
        ensures
            tracker.states().len() == 0,
    {
        DagTracker { instances: Vec::new() }
    }
}

impl DagTracker {
    /// The instances.
    pub closed spec fn states(&self) -> Seq<DagState> {
        Seq::new(self.instances@.len(), |i: int| self.instances@[i].state())
    }

    /// A tracker without instances.
    pub fn new() -> (tracker: Self)
        ensures
            tracker.states().len() == 0,
    {
        DagTracker { instances: Vec::new() }
    }

    /// Registers one DAG instance and appends the proxy tasks of its nodes to
    /// the task registry.
    pub fn register_dag(&mut self, dag: DagTask, task_registry: &mut Vec<Task>) -> (reg:
        DagRegistration)
        ensures
            reg.instance_id == DagInstanceId(old(self).states().len() as u64),
            final(self).states() == old(self).states().push(
                registered(dag, old(task_registry)@.len()),
            ),
            reg.ready_task_ids@ == registered(dag, old(task_registry)@.len()).ready(
                dag.nodes@.len() as int,
            ),
            final(task_registry)@.len() == old(task_registry)@.len() + dag.nodes@.len(),
            final(task_registry)@.take(old(task_registry)@.len() as int) == old(task_registry)@,
            forall|i: int|
                0 <= i < dag.nodes@.len() ==> is_proxy(
                    #[trigger] final(task_registry)@[old(task_registry)@.len() + i],
                    dag,
                    dag.nodes@[i],
                    TaskId((old(task_registry)@.len() + i) as u32),
                    reg.instance_id,
                ),
    {
        let instance_id = DagInstanceId(self.instances.len() as u64);
        let base: usize = task_registry.len();
        let ghost tasks = task_registry@;
        let ghost fresh = registered(dag, base as nat);

        let mut proxies: Vec<NodeProxy> = Vec::new();
        let mut i: usize = 0;
        while i < dag.nodes.len()
            invariant
                i <= dag.nodes@.len(),
                base == tasks.len(),
                fresh == registered(dag, base as nat),
                task_registry@.len() == base + i,
                task_registry@.take(base as int) == tasks,
                forall|k: int|
                    0 <= k < i ==> is_proxy(
                        #[trigger] task_registry@[base + k],
                        dag,
                        dag.nodes@[k],
                        TaskId((base + k) as u32),
                        instance_id,
                    ),
                proxies@ == fresh.proxies.take(i as int),
            decreases dag.nodes@.len() - i,
        {
            let task_id = TaskId(#[verifier::truncate] (task_registry.len() as u32));
            let node: &SubTask = &dag.nodes[i];
            let ghost before = task_registry@;
            task_registry.push(subtask_to_proxy_task(&dag, node, task_id, instance_id));
            proxies.push(NodeProxy { node: SubTaskIdx(node.index as u32), task_id });
            proof {
                assert(task_registry@.take(base as int) =~= before.take(base as int));
                assert(proxies@ =~= fresh.proxies.take(i as int + 1));
                assert forall|k: int| 0 <= k < i + 1 implies is_proxy(
                    #[trigger] task_registry@[base + k],
                    dag,
                    dag.nodes@[k],
                    TaskId((base + k) as u32),
                    instance_id,
                ) by {
                    if k < i {
                        assert(task_registry@[base + k] == before[base + k]);
                    }
                }
            }
            i = i + 1;
        }
        proof {
            assert(proxies@ =~= fresh.proxies);
        }
        let bytes: Vec<EdgeBytes> = collect_bytes(&dag);
        let DagTask { edges, .. } = dag;
        let satisfied: Vec<EdgeKey> = Vec::new();
        let instance = DagInstance { edges, proxies, bytes, satisfied };
        proof {
            assert(instance.state() =~= fresh);
        }
        let ready_task_ids: Vec<TaskId> = instance.ready_tasks();
        self.instances.push(instance);
        proof {
            assert(self.states() =~= old(self).states().push(fresh));
        }
        DagRegistration { instance_id, ready_task_ids }
    }

    /// Counts the instances.
    pub fn instance_count(&self) -> (n: u64)
        ensures
            n == self.states().len(),
    {
        self.instances.len() as u64
    }

    /// The place of an instance, if there is one.
    fn place(&self, instance_id: DagInstanceId) -> (place: Option<usize>)
        ensures
            match place {
                Some(i) => i < self.instances@.len() && i == instance_id.0,
                None => instance_id.0 >= self.instances@.len(),
            },
    {
        if instance_id.0 < self.instances.len() as u64 {
            Some(instance_id.0 as usize)
        } else {
            None
        }
    }

    /// The provenance of a proxy task within one instance.
    pub fn dag_provenance(&self, instance_id: DagInstanceId, task_id: TaskId) -> (provenance: Option<
        DagProvenance,
    >)
        ensures
            provenance == if instance_id.0 < self.states().len() {
                match self.states()[instance_id.0 as int].node_of(task_id) {
                    Some(node) => Some(DagProvenance { dag_instance_id: instance_id, node }),
                    None => None,
                }
            } else {
                None
            },
    {
        match self.place(instance_id) {
            Some(i) => match self.instances[i].find_node(task_id) {
                Some(node) => Some(DagProvenance { dag_instance_id: instance_id, node }),
                None => None,
            },
            None => None,
        }
    }

    /// The provenance of a proxy task, from the first instance that has it.
    pub fn provenance_for_task(&self, task_id: TaskId) -> (provenance: Option<DagProvenance>)
        ensures
            match provenance {
                Some(p) => {
                    &&& p.dag_instance_id.0 < self.states().len()
                    &&& self.states()[p.dag_instance_id.0 as int].node_of(task_id) == Some(p.node)
                    &&& forall|i: int|
                        0 <= i < p.dag_instance_id.0 ==> (#[trigger] self.states()[i]).node_of(
                            task_id,
                        ) is None
                },
                None => forall|i: int|
                    0 <= i < self.states().len() ==> (#[trigger] self.states()[i]).node_of(
                        task_id,
                    ) is None,
            },
    {
        let mut i: usize = 0;
        while i < self.instances.len()
            invariant
                i <= self.instances@.len(),
                forall|k: int|
                    0 <= k < i ==> (#[trigger] self.states()[k]).node_of(task_id) is None,
            decreases self.instances@.len() - i,
        {
            assert(self.states()[i as int] == self.instances@[i as int].state());
            if let Some(node) = self.instances[i].find_node(task_id) {
                return Some(DagProvenance { dag_instance_id: DagInstanceId(i as u64), node });
            }
            i = i + 1;
        }
        None
    }

    /// The proxy task of a node.
    pub fn proxy_task_id(&self, instance_id: DagInstanceId, node: SubTaskIdx) -> (task_id: Option<
        TaskId,
    >)
        ensures
            task_id == if instance_id.0 < self.states().len() {
                self.states()[instance_id.0 as int].task_of(node)
            } else {
                None
            },
    {
        match self.place(instance_id) {
            Some(i) => self.instances[i].find_task(node),
            None => None,
        }
    }

    /// Marks one edge token satisfied; returns the successor proxy tasks that
    /// this releases.
    pub fn mark_edge_satisfied(
        &mut self,
        instance_id: DagInstanceId,
        from: SubTaskIdx,
        to: SubTaskIdx,
    ) -> (tasks: Vec<TaskId>)
        ensures
            if instance_id.0 < old(self).states().len() {
                let (after, ids) = old(self).states()[instance_id.0 as int].marked(from, to);
                &&& final(self).states() == old(self).states().update(instance_id.0 as int, after)
                &&& tasks@ == ids
            } else {
                &&& final(self).states() == old(self).states()
                &&& tasks@.len() == 0
            },
    {
        let mut tasks: Vec<TaskId> = Vec::new();
        let i: usize = match self.place(instance_id) {
            Some(i) => i,
            None => {
                return tasks;
            },
        };
        let ghost before = self.states()[i as int];
        assert(before == self.instances@[i as int].state());
        if !self.instances[i].has_edge(from, to) || self.instances[i].is_satisfied(from, to) {
            proof {
                assert(self.states() =~= old(self).states().update(i as int, before));
                assert(tasks@ =~= Seq::empty());
            }
            return tasks;
        }
        self.instances[i].satisfied.push((from, to));
        let ghost after = self.instances@[i as int].state();
        proof {
            assert(after =~= before.marked(from, to).0);
            assert(self.states() =~= old(self).states().update(i as int, after));
        }
        if self.instances[i].is_released(to) {
            if let Some(task_id) = self.instances[i].find_task(to) {
                tasks.push(task_id);
                assert(tasks@ =~= seq![task_id]);
            }
        }
        tasks
    }

    /// The edges of an instance.
    pub fn edges(&self, instance_id: DagInstanceId) -> (edges: Option<&[(usize, usize)]>)
        ensures
            match edges {
                Some(list) => instance_id.0 < self.states().len() && list@
                    == self.states()[instance_id.0 as int].edges,
                None => instance_id.0 >= self.states().len(),
            },
    {
        match self.place(instance_id) {
            Some(i) => Some(self.instances[i].edges.as_slice()),
            None => None,
        }
    }

    /// The successors of a node with the data that goes there.
    pub fn outgoing_edges(&self, instance_id: DagInstanceId, from: SubTaskIdx) -> (list: Vec<
        (SubTaskIdx, u64),
    >)
        ensures
            list@ == if instance_id.0 < self.states().len() {
                outgoing(self.states()[instance_id.0 as int].bytes, from)
            } else {
                Seq::empty()
            },
    {
        let mut list: Vec<(SubTaskIdx, u64)> = Vec::new();
        let i: usize = match self.place(instance_id) {
            Some(i) => i,
            None => {
                assert(list@ =~= Seq::empty());
                return list;
            },
        };
        let bytes: &Vec<EdgeBytes> = &self.instances[i].bytes;
        let mut k: usize = 0;
        while k < bytes.len()
            invariant
                k <= bytes@.len(),
                list@ == outgoing(bytes@.take(k as int), from),
            decreases bytes@.len() - k,
        {
            proof {
                assert(bytes@.take(k as int + 1).drop_last() =~= bytes@.take(k as int));
            }
            if bytes[k].from == from {
                list.push((bytes[k].to, bytes[k].bytes));
            }
            k = k + 1;
        }
        proof {
            assert(bytes@.take(k as int) =~= bytes@);
        }
        list
    }
}

impl DagInstance {
    /// Finds the node that a proxy task runs.
    fn find_node(&self, task_id: TaskId) -> (node: Option<SubTaskIdx>)
        ensures
            node == self.state().node_of(task_id),
    {
        let mut n: usize = self.proxies.len();
        proof {
            assert(self.proxies@.take(n as int) =~= self.proxies@);
        }
        while n > 0
            invariant
                n <= self.proxies@.len(),
                search::last_where(self.proxies@, is_task(task_id)) == search::last_where(
                    self.proxies@.take(n as int),
                    is_task(task_id),
                ),
            decreases n,
        {
            proof {
                assert(self.proxies@.take(n as int).drop_last() =~= self.proxies@.take(
                    n as int - 1,
                ));
            }
            if self.proxies[n - 1].task_id == task_id {
                return Some(self.proxies[n - 1].node);
            }
            n = n - 1;
        }
        None
    }

    /// Finds the place of the proxy of a node.
    fn find_proxy(&self, node: SubTaskIdx) -> (place: Option<usize>)
        ensures
            match place {
                Some(i) => i < self.proxies@.len() && search::last_where(
                    self.proxies@,
                    runs_node(node),
                ) == Some(i as int),
                None => search::last_where(self.proxies@, runs_node(node)) is None,
            },
    {
        let mut n: usize = self.proxies.len();
        proof {
            assert(self.proxies@.take(n as int) =~= self.proxies@);
        }
        while n > 0
            invariant
                n <= self.proxies@.len(),
                search::last_where(self.proxies@, runs_node(node)) == search::last_where(
                    self.proxies@.take(n as int),
                    runs_node(node),
                ),
            decreases n,
        {
            proof {
                assert(self.proxies@.take(n as int).drop_last() =~= self.proxies@.take(
                    n as int - 1,
                ));
            }
            if self.proxies[n - 1].node == node {
                return Some(n - 1);
            }
            n = n - 1;
        }
        None
    }

    /// Finds the proxy task of a node.
    fn find_task(&self, node: SubTaskIdx) -> (task_id: Option<TaskId>)
        ensures
            task_id == self.state().task_of(node),
    {
        match self.find_proxy(node) {
            Some(i) => Some(self.proxies[i].task_id),
            None => None,
        }
    }

    /// Tells whether an edge is one of the DAG's.
    fn has_edge(&self, from: SubTaskIdx, to: SubTaskIdx) -> (yes: bool)
        ensures
            yes == edge_keys(self.state().edges).contains((from, to)),
    {
        let ghost keys = edge_keys(self.edges@);
        let mut i: usize = 0;
        while i < self.edges.len()
            invariant
                i <= self.edges@.len(),
                keys == edge_keys(self.edges@),
                forall|k: int| 0 <= k < i ==> #[trigger] keys[k] != (from, to),
            decreases self.edges@.len() - i,
        {
            if SubTaskIdx(self.edges[i].0 as u32) == from && SubTaskIdx(self.edges[i].1 as u32)
                == to {
                assert(keys[i as int] == (from, to));
                return true;
            }
            i = i + 1;
        }
        false
    }

    /// Tells whether an edge is satisfied.
    fn is_satisfied(&self, from: SubTaskIdx, to: SubTaskIdx) -> (yes: bool)
        ensures
            yes == self.state().satisfied.contains((from, to)),
    {
        let mut i: usize = 0;
        while i < self.satisfied.len()
            invariant
                i <= self.satisfied@.len(),
                forall|k: int| 0 <= k < i ==> #[trigger] self.satisfied@[k] != (from, to),
            decreases self.satisfied@.len() - i,
        {
            if self.satisfied[i].0 == from && self.satisfied[i].1 == to {
                assert(self.satisfied@[i as int] == (from, to));
                return true;
            }
            i = i + 1;
        }
        false
    }

    /// Tells whether an edge is listed before a place.
    fn listed_before(&self, n: usize, from: SubTaskIdx, to: SubTaskIdx) -> (yes: bool)
        requires
            n <= self.edges@.len(),
        ensures
            yes == edge_keys(self.edges@).take(n as int).contains((from, to)),
    {
        let ghost keys = edge_keys(self.edges@).take(n as int);
        let mut i: usize = 0;
        while i < n
            invariant
                i <= n <= self.edges@.len(),
                keys == edge_keys(self.edges@).take(n as int),
                forall|k: int| 0 <= k < i ==> #[trigger] keys[k] != (from, to),
            decreases n - i,
        {
            assert(keys[i as int] == edge_key(self.edges@[i as int]));
            if SubTaskIdx(self.edges[i].0 as u32) == from && SubTaskIdx(self.edges[i].1 as u32)
                == to {
                return true;
            }
            i = i + 1;
        }
        false
    }

    /// Tells whether nothing holds a node back.
    fn is_released(&self, node: SubTaskIdx) -> (yes: bool)
        ensures
            yes == self.state().released(node),
    {
        let ghost keys = edge_keys(self.edges@);
        let mut i: usize = 0;
        while i < self.edges.len()
            invariant
                i <= self.edges@.len(),
                keys == edge_keys(self.edges@),
                forall|k: int|
                    0 <= k < i && (#[trigger] keys[k]).1 == node ==> self.satisfied@.contains(
                        keys[k],
                    ) && !keys.take(k).contains(keys[k]),
            decreases self.edges@.len() - i,
        {
            let from = SubTaskIdx(self.edges[i].0 as u32);
            let to = SubTaskIdx(self.edges[i].1 as u32);
            assert(keys[i as int] == (from, to));
            if to == node && (!self.is_satisfied(from, to) || self.listed_before(i, from, to)) {
                assert(edge_keys(self.state().edges)[i as int].1 == node);
                return false;
            }
            i = i + 1;
        }
        true
    }

    /// Lists the proxy tasks of nodes that nothing holds back.
    fn ready_tasks(&self) -> (tasks: Vec<TaskId>)
        ensures
            tasks@ == self.state().ready(self.proxies@.len() as int),
    {
        let mut tasks: Vec<TaskId> = Vec::new();
        let mut i: usize = 0;
        while i < self.proxies.len()
            invariant
                i <= self.proxies@.len(),
                tasks@ == self.state().ready(i as int),
            decreases self.proxies@.len() - i,
        {
            let proxy: NodeProxy = self.proxies[i];
            let current: bool = match self.find_proxy(proxy.node) {
                Some(place) => place == i,
                None => false,
            };
            if current && self.is_released(proxy.node) {
                tasks.push(proxy.task_id);
            }
            i = i + 1;
        }
        tasks
    }
}

/// Finds the entry for an edge.
fn find_bytes(list: &Vec<EdgeBytes>, from: SubTaskIdx, to: SubTaskIdx) -> (place: Option<usize>)
    ensures
        match place {
            Some(i) => i < list@.len() && search::first_where(list@, entry_of(from, to)) == Some(
                i as int,
            ),
            None => search::first_where(list@, entry_of(from, to)) is None,
        },
{
    let mut i: usize = 0;
    while i < list.len()
        invariant
            i <= list@.len(),
            forall|k: int| 0 <= k < i ==> !entry_of(from, to)(#[trigger] list@[k]),
        decreases list@.len() - i,
    {
        if list[i].from == from && list[i].to == to {
            proof {
                search::lemma_found(list@, entry_of(from, to), i as int);
            }
            return Some(i);
        }
        i = i + 1;
    }
    proof {
        search::lemma_not_found(list@, entry_of(from, to));
    }
    None
}

/// Collects the data on the edges of a DAG.
fn collect_bytes(dag: &DagTask) -> (list: Vec<EdgeBytes>)
    ensures
        list@ == with_edges(dep_bytes(dag.nodes@), dag.edges@),
{
    let mut list: Vec<EdgeBytes> = Vec::new();
    let mut i: usize = 0;
    while i < dag.nodes.len()
        invariant
            i <= dag.nodes@.len(),
            list@ == dep_bytes(dag.nodes@.take(i as int)),
        decreases dag.nodes@.len() - i,
    {
        proof {
            assert(dag.nodes@.take(i as int + 1).drop_last() =~= dag.nodes@.take(i as int));
        }
        let to = SubTaskIdx(dag.nodes[i].index as u32);
        collect_deps(&mut list, &dag.nodes[i].data_deps, to);
        i = i + 1;
    }
    proof {
        assert(dag.nodes@.take(i as int) =~= dag.nodes@);
    }
    let ghost from_deps = list@;
    let mut k: usize = 0;
    while k < dag.edges.len()
        invariant
            k <= dag.edges@.len(),
            list@ == with_edges(from_deps, dag.edges@.take(k as int)),
        decreases dag.edges@.len() - k,
    {
        proof {
            assert(dag.edges@.take(k as int + 1).drop_last() =~= dag.edges@.take(k as int));
        }
        let from = SubTaskIdx(dag.edges[k].0 as u32);
        let to = SubTaskIdx(dag.edges[k].1 as u32);
        if find_bytes(&list, from, to).is_none() {
            list.push(EdgeBytes { from, to, bytes: 0 });
        }
        k = k + 1;
    }
    proof {
        assert(dag.edges@.take(k as int) =~= dag.edges@);
    }
    list
}

/// Sets the data that the dependencies of one node give.
fn collect_deps(list: &mut Vec<EdgeBytes>, deps: &Vec<(usize, u64)>, to: SubTaskIdx)
    ensures
        final(list)@ == with_deps(old(list)@, deps@, to),
{
    let ghost before = list@;
    let mut i: usize = 0;
    while i < deps.len()
        invariant
            i <= deps@.len(),
            list@ == with_deps(before, deps@.take(i as int), to),
        decreases deps@.len() - i,
    {
        proof {
            assert(deps@.take(i as int + 1).drop_last() =~= deps@.take(i as int));
        }
        let entry = EdgeBytes { from: SubTaskIdx(deps[i].0 as u32), to, bytes: deps[i].1 };
        match find_bytes(list, entry.from, to) {
            Some(at) => {
                list.set(at, entry);
            },
            None => {
                list.push(entry);
            },
        }
        i = i + 1;
    }
    proof {
        assert(deps@.take(i as int) =~= deps@);
    }
}

/// Makes the proxy task of a DAG node.
fn subtask_to_proxy_task(
    dag: &DagTask,
    node: &SubTask,
    task_id: TaskId,
    instance_id: DagInstanceId,
) -> (proxy: Task)
    ensures
        is_proxy(proxy, *dag, *node, task_id, instance_id),
{
    let mut name: String = String::from_str("dag-");
    text::push_decimal(&mut name, instance_id.0 as u128);
    name.append("-n");
    text::push_decimal(&mut name, node.index as u128);
    Task {
        id: task_id,
        name,
        priority: 1,
        arrival: ArrivalModel::Aperiodic,
        deadline: dag.deadline,
        criticality: dag.criticality,
        exec_times: task::clone_exec_times(&node.exec_times),
        affinity: task::clone_affinity(&node.affinity),
        data_size: 0,
    }
}

/// Marking an edge a second time changes and releases nothing.
pub proof fn law_edge_counts_once(state: DagState, from: SubTaskIdx, to: SubTaskIdx)
    ensures
        ({
            let once = state.marked(from, to).0;
            once.marked(from, to) == (once, Seq::<TaskId>::empty())
        }),
{
    let once = state.marked(from, to).0;
    if edge_keys(state.edges).contains((from, to)) && !state.satisfied.contains((from, to)) {
        assert(once.satisfied.last() == (from, to));
        assert(once.satisfied.contains((from, to)));
    }
}

/// Whether an edge of a DAG leads to a node.
pub open spec fn has_predecessor(dag: DagTask, node: SubTaskIdx) -> bool {
    exists|i: int| 0 <= i < dag.edges@.len() && edge_key(#[trigger] dag.edges@[i]).1 == node
}

/// Nothing holds back exactly the nodes of a registered DAG that no edge leads
/// to.
pub proof fn law_registered_nodes_wait_for_predecessors(dag: DagTask, base: nat, node: SubTaskIdx)
    ensures
        registered(dag, base).released(node) <==> !has_predecessor(dag, node),
{
    let state = registered(dag, base);
    let keys = edge_keys(state.edges);
    if has_predecessor(dag, node) {
        let i = choose|i: int|
            0 <= i < dag.edges@.len() && edge_key(#[trigger] dag.edges@[i]).1 == node;
        assert(keys[i].1 == node);
    }
    if !state.released(node) {
        let i = choose|i: int|
            0 <= i < keys.len() && (#[trigger] keys[i]).1 == node && !(state.satisfied.contains(
                keys[i],
            ) && !keys.take(i).contains(keys[i]));
        assert(edge_key(dag.edges@[i]).1 == node);
    }
}

/// The tasks that are ready when a DAG is registered are those of nodes that no
/// edge leads to.
pub proof fn law_ready_nodes_have_no_predecessors(dag: DagTask, base: nat, n: int, i: int)
    requires
        0 <= i < n <= dag.nodes@.len(),
        base + dag.nodes@.len() <= u32::MAX,
        registered(dag, base).task_of(SubTaskIdx(dag.nodes@[i].index as u32)) == Some(
            TaskId((base + i) as u32),
        ),
    ensures
        registered(dag, base).ready(n).contains(TaskId((base + i) as u32)) <==> !has_predecessor(
            dag,
            SubTaskIdx(dag.nodes@[i].index as u32),
        ),
    decreases n,
{
    let state = registered(dag, base);
    let task_id = TaskId((base + i) as u32);
    let rest = state.ready(n - 1);
    let p = state.proxies[n - 1];
    law_registered_nodes_wait_for_predecessors(dag, base, p.node);
    if i < n - 1 {
        law_ready_nodes_have_no_predecessors(dag, base, n - 1, i);
        assert(p.task_id != task_id);
        if rest.contains(task_id) {
            let k = choose|k: int| 0 <= k < rest.len() && rest[k] == task_id;
            assert(state.ready(n)[k] == task_id);
        }
        if state.ready(n).contains(task_id) {
            let k = choose|k: int| 0 <= k < state.ready(n).len() && state.ready(n)[k] == task_id;
            assert(rest[k] == task_id);
        }
    } else {
        lemma_ready_before(dag, base, n - 1);
        search::law_last_where(state.proxies, runs_node(p.node));
        assert(runs_node(p.node)(p));
        let last = search::last_where(state.proxies, runs_node(p.node))->0;
        assert(state.proxies[last].task_id == TaskId((base + last) as u32));
        if state.released(p.node) {
            assert(state.ready(n)[rest.len() as int] == task_id);
        } else if rest.contains(task_id) {
            let k = choose|k: int| 0 <= k < rest.len() && rest[k] == task_id;
            assert(rest[k].0 < base + n - 1);
        }
    }
}

/// Ready tasks are numbered below the nodes that are still to be looked at.
proof fn lemma_ready_before(dag: DagTask, base: nat, n: int)
    requires
        0 <= n <= dag.nodes@.len(),
        base + dag.nodes@.len() <= u32::MAX,
    ensures
        forall|k: int|
            0 <= k < registered(dag, base).ready(n).len() ==> (#[trigger] registered(
                dag,
                base,
            ).ready(n)[k]).0 < base + n,
    decreases n,
{
    if n > 0 {
        lemma_ready_before(dag, base, n - 1);
        let state = registered(dag, base);
        let rest = state.ready(n - 1);
        assert forall|k: int| 0 <= k < state.ready(n).len() implies (#[trigger] state.ready(
            n,
        )[k]).0 < base + n by {
            if k < rest.len() {
                assert(state.ready(n)[k] == rest[k]);
            }
        }
    }
}

/// A task is released only once every edge into its node is satisfied.
pub proof fn law_release_follows_all_edges(
    state: DagState,
    from: SubTaskIdx,
    to: SubTaskIdx,
    edge: (usize, usize),
)
    requires
        state.marked(from, to).1.len() > 0,
        state.edges.contains(edge),
        edge_key(edge).1 == to,
    ensures
        state.marked(from, to).0.satisfied.contains(edge_key(edge)),
{
    let after = state.marked(from, to).0;
    let i = choose|i: int| 0 <= i < state.edges.len() && state.edges[i] == edge;
    assert(edge_keys(after.edges)[i] == edge_key(edge));
}

/// Marking an edge never takes back another one.
pub proof fn law_marking_is_monotone(
    state: DagState,
    from: SubTaskIdx,
    to: SubTaskIdx,
    other: EdgeKey,
)
    requires
        state.satisfied.contains(other),
    ensures
        state.marked(from, to).0.satisfied.contains(other),
{
    let i = choose|i: int| 0 <= i < state.satisfied.len() && state.satisfied[i] == other;
    let after = state.marked(from, to).0;
    assert(after.satisfied[i] == other);
}

proof fn lemma_entry_is_outgoing(list: Seq<EdgeBytes>, i: int)
    requires
        0 <= i < list.len(),
    ensures
        exists|k: int|
            0 <= k < outgoing(list, list[i].from).len() && (#[trigger] outgoing(
                list,
                list[i].from,
            )[k]).0 == list[i].to,
    decreases list.len(),
{
    let from = list[i].from;
    let rest = outgoing(list.drop_last(), from);
    let all = outgoing(list, from);
    if i == list.len() - 1 {
        assert(all[rest.len() as int].0 == list[i].to);
    } else {
        lemma_entry_is_outgoing(list.drop_last(), i);
        let k = choose|k: int| 0 <= k < rest.len() && (#[trigger] rest[k]).0 == list[i].to;
        assert(all[k] == rest[k]);
    }
}

/// The data that a node names for a predecessor, by the last of its
/// dependencies on it.
pub open spec fn needed(deps: Seq<(usize, u64)>, from: SubTaskIdx) -> Option<u64>
    decreases deps.len(),
{
    if deps.len() == 0 {
        None
    } else if SubTaskIdx(deps.last().0 as u32) == from {
        Some(deps.last().1)
    } else {
        needed(deps.drop_last(), from)
    }
}

/// The data that nodes of one index name for a predecessor, by the last of
/// these nodes that depends on it.
pub open spec fn carried(nodes: Seq<SubTask>, from: SubTaskIdx, to: SubTaskIdx) -> Option<u64>
    decreases nodes.len(),
{
    if nodes.len() == 0 {
        None
    } else {
        let own = needed(nodes.last().data_deps@, from);
        if SubTaskIdx(nodes.last().index as u32) == to && own is Some {
            own
        } else {
            carried(nodes.drop_last(), from, to)
        }
    }
}

/// What a list of edge data holds for an edge.
pub open spec fn bytes_of(list: Seq<EdgeBytes>, from: SubTaskIdx, to: SubTaskIdx) -> Option<u64> {
    match search::first_where(list, entry_of(from, to)) {
        Some(i) => Some(list[i].bytes),
        None => None,
    }
}

/// Whether no edge has two entries.
pub open spec fn one_entry_each(list: Seq<EdgeBytes>) -> bool {
    forall|i: int, j: int|
        0 <= i < j < list.len() ==> (#[trigger] list[i]).from != (#[trigger] list[j]).from
            || list[i].to != list[j].to
}

/// An entry of a list without double entries is what the list holds.
proof fn lemma_entry_counts(list: Seq<EdgeBytes>, i: int)
    requires
        one_entry_each(list),
        0 <= i < list.len(),
    ensures
        bytes_of(list, list[i].from, list[i].to) == Some(list[i].bytes),
{
    let cond = entry_of(list[i].from, list[i].to);
    search::law_first_where(list, cond);
    assert(cond(list[i]));
    let k = search::first_where(list, cond)->0;
    assert(cond(list[k]));
    if k < i {
        assert(list[k].from != list[i].from || list[k].to != list[i].to);
    }
}

/// Setting an entry changes what is held for its edge only.
proof fn lemma_with_bytes(list: Seq<EdgeBytes>, entry: EdgeBytes, from: SubTaskIdx, to: SubTaskIdx)
    requires
        one_entry_each(list),
    ensures
        one_entry_each(with_bytes(list, entry)),
        bytes_of(with_bytes(list, entry), from, to) == if entry.from == from && entry.to == to {
            Some(entry.bytes)
        } else {
            bytes_of(list, from, to)
        },
{
    let after = with_bytes(list, entry);
    let own = entry_of(entry.from, entry.to);
    let cond = entry_of(from, to);
    search::law_first_where(list, own);
    search::law_first_where(list, cond);
    search::law_first_where(after, cond);
    let at = match search::first_where(list, own) {
        Some(k) => k,
        None => list.len() as int,
    };
    assert(search::first_where(list, own) is Some ==> own(list[at]));
    assert forall|i: int| 0 <= i < after.len() && i != at implies #[trigger] after[i] == list[i]
        && !own(list[i]) by {
        if own(list[i]) && search::first_where(list, own) is Some {
            if i < at {
                assert(list[i].from != list[at].from || list[i].to != list[at].to);
            } else {
                assert(list[at].from != list[i].from || list[at].to != list[i].to);
            }
        }
    }
    assert(after[at] == entry);
    assert(one_entry_each(after)) by {
        assert forall|i: int, j: int| 0 <= i < j < after.len() implies (#[trigger] after[i]).from
            != (#[trigger] after[j]).from || after[i].to != after[j].to by {
            if i != at && j != at {
                assert(after[i] == list[i] && after[j] == list[j]);
            } else if i == at {
                assert(!own(list[j]));
            } else {
                assert(!own(list[i]));
            }
        }
    }
    if entry.from == from && entry.to == to {
        lemma_entry_counts(after, at);
    } else {
        match search::first_where(list, cond) {
            Some(k) => {
                assert(cond(list[k]));
                assert(k != at);
                assert(after[k] == list[k]);
                lemma_entry_counts(after, k);
            },
            None => {
                assert forall|j: int| 0 <= j < after.len() implies !cond(#[trigger] after[j]) by {
                    if j != at {
                        assert(!cond(list[j]));
                    }
                }
                search::lemma_not_found(after, cond);
            },
        }
    }
}

/// An entry of no bytes is made only where there is none.
proof fn lemma_with_entry(list: Seq<EdgeBytes>, key: EdgeKey, from: SubTaskIdx, to: SubTaskIdx)
    requires
        one_entry_each(list),
    ensures
        one_entry_each(with_entry(list, key)),
        bytes_of(with_entry(list, key), from, to) == if bytes_of(list, from, to) is None && key == (
            from,
            to,
        ) {
            Some(0)
        } else {
            bytes_of(list, from, to)
        },
{
    if search::first_where(list, entry_of(key.0, key.1)) is None {
        let entry = EdgeBytes { from: key.0, to: key.1, bytes: 0 };
        assert(with_entry(list, key) == with_bytes(list, entry));
        lemma_with_bytes(list, entry, from, to);
    }
}

proof fn lemma_with_deps(
    list: Seq<EdgeBytes>,
    deps: Seq<(usize, u64)>,
    node: SubTaskIdx,
    from: SubTaskIdx,
    to: SubTaskIdx,
)
    requires
        one_entry_each(list),
    ensures
        one_entry_each(with_deps(list, deps, node)),
        bytes_of(with_deps(list, deps, node), from, to) == if node == to && needed(deps, from)
            is Some {
            needed(deps, from)
        } else {
            bytes_of(list, from, to)
        },
    decreases deps.len(),
{
    if deps.len() > 0 {
        lemma_with_deps(list, deps.drop_last(), node, from, to);
        lemma_with_bytes(
            with_deps(list, deps.drop_last(), node),
            EdgeBytes {
                from: SubTaskIdx(deps.last().0 as u32),
                to: node,
                bytes: deps.last().1,
            },
            from,
            to,
        );
    }
}

proof fn lemma_dep_bytes(nodes: Seq<SubTask>, from: SubTaskIdx, to: SubTaskIdx)
    ensures
        one_entry_each(dep_bytes(nodes)),
        bytes_of(dep_bytes(nodes), from, to) == carried(nodes, from, to),
    decreases nodes.len(),
{
    if nodes.len() > 0 {
        lemma_dep_bytes(nodes.drop_last(), from, to);
        lemma_with_deps(
            dep_bytes(nodes.drop_last()),
            nodes.last().data_deps@,
            SubTaskIdx(nodes.last().index as u32),
            from,
            to,
        );
    }
}

proof fn lemma_with_edges(
    list: Seq<EdgeBytes>,
    edges: Seq<(usize, usize)>,
    from: SubTaskIdx,
    to: SubTaskIdx,
)
    requires
        one_entry_each(list),
    ensures
        one_entry_each(with_edges(list, edges)),
        bytes_of(with_edges(list, edges), from, to) == if bytes_of(list, from, to) is None
            && edge_keys(edges).contains((from, to)) {
            Some(0)
        } else {
            bytes_of(list, from, to)
        },
    decreases edges.len(),
{
    if edges.len() > 0 {
        let rest = edges.drop_last();
        lemma_with_edges(list, rest, from, to);
        lemma_with_entry(with_edges(list, rest), edge_key(edges.last()), from, to);
        assert(edge_keys(edges) =~= edge_keys(rest).push(edge_key(edges.last())));
        lemma_push_contains(edge_keys(rest), edge_key(edges.last()), (from, to));
    } else if edge_keys(edges).contains((from, to)) {
        let i = choose|i: int| 0 <= i < edge_keys(edges).len() && edge_keys(edges)[i] == (from, to);
        assert(false);
    }
}

/// What leaves a node according to a list without double entries.
proof fn lemma_outgoing(list: Seq<EdgeBytes>, from: SubTaskIdx)
    requires
        one_entry_each(list),
    ensures
        forall|k: int|
            0 <= k < outgoing(list, from).len() ==> bytes_of(
                list,
                from,
                (#[trigger] outgoing(list, from)[k]).0,
            ) == Some(outgoing(list, from)[k].1),
        forall|k: int, l: int|
            0 <= k < l < outgoing(list, from).len() ==> (#[trigger] outgoing(list, from)[k]).0 != (
            #[trigger] outgoing(list, from)[l]).0,
    decreases list.len(),
{
    if list.len() > 0 {
        let rest = list.drop_last();
        let n = rest.len() as int;
        assert(one_entry_each(rest)) by {
            assert forall|i: int, j: int| 0 <= i < j < rest.len() implies (
            #[trigger] rest[i]).from != (#[trigger] rest[j]).from || rest[i].to != rest[j].to by {
                assert(rest[i] == list[i] && rest[j] == list[j]);
            }
        }
        lemma_outgoing(rest, from);
        let before = outgoing(rest, from);
        let out = outgoing(list, from);
        assert forall|k: int| 0 <= k < before.len() implies bytes_of(
            list,
            from,
            (#[trigger] out[k]).0,
        ) == Some(out[k].1) && !(list[n].from == from && list[n].to == out[k].0) by {
            assert(out[k] == before[k]);
            let cond = entry_of(from, before[k].0);
            search::law_first_where(rest, cond);
            let i = search::first_where(rest, cond)->0;
            assert(bytes_of(rest, from, before[k].0) == Some(before[k].1));
            assert(cond(rest[i]));
            assert(rest[i] == list[i]);
            lemma_entry_counts(list, i);
            assert(list[i].from != list[n].from || list[i].to != list[n].to);
        }
        if list.last().from == from {
            lemma_entry_counts(list, n);
            assert(out[before.len() as int] == (list[n].to, list[n].bytes));
        }
        assert forall|k: int, l: int| 0 <= k < l < out.len() implies (#[trigger] out[k]).0 != (
        #[trigger] out[l]).0 by {
            if l < before.len() {
                assert(out[k] == before[k] && out[l] == before[l]);
            } else {
                assert(out[l] == (list[n].to, list[n].bytes));
            }
        }
    }
}

/// The successors of a node of a registered DAG are the ends of its edges and
/// the nodes that depend on its data, each once, with the data that they name
/// for it, or none.
pub proof fn law_edges_are_outgoing(dag: DagTask, base: nat, from: SubTaskIdx)
    ensures
        ({
            let out = outgoing(registered(dag, base).bytes, from);
            &&& forall|k: int, l: int|
                0 <= k < l < out.len() ==> (#[trigger] out[k]).0 != (#[trigger] out[l]).0
            &&& forall|k: int|
                0 <= k < out.len() ==> {
                    let to = (#[trigger] out[k]).0;
                    &&& edge_keys(dag.edges@).contains((from, to)) || carried(
                        dag.nodes@,
                        from,
                        to,
                    ) is Some
                    &&& out[k].1 == match carried(dag.nodes@, from, to) {
                        Some(bytes) => bytes,
                        None => 0,
                    }
                }
            &&& forall|to: SubTaskIdx|
                edge_keys(dag.edges@).contains((from, to)) || (#[trigger] carried(
                    dag.nodes@,
                    from,
                    to,
                )) is Some ==> exists|k: int| 0 <= k < out.len() && (#[trigger] out[k]).0 == to
        }),
{
    let list = registered(dag, base).bytes;
    let out = outgoing(list, from);
    lemma_dep_bytes(dag.nodes@, from, from);
    lemma_with_edges(dep_bytes(dag.nodes@), dag.edges@, from, from);
    lemma_outgoing(list, from);
    assert forall|k: int| 0 <= k < out.len() implies ({
        let to = (#[trigger] out[k]).0;
        &&& edge_keys(dag.edges@).contains((from, to)) || carried(dag.nodes@, from, to) is Some
        &&& out[k].1 == match carried(dag.nodes@, from, to) {
            Some(bytes) => bytes,
            None => 0,
        }
    }) by {
        let to = out[k].0;
        lemma_dep_bytes(dag.nodes@, from, to);
        lemma_with_edges(dep_bytes(dag.nodes@), dag.edges@, from, to);
        assert(bytes_of(list, from, to) == Some(out[k].1));
    }
    assert forall|to: SubTaskIdx|
        edge_keys(dag.edges@).contains((from, to)) || (#[trigger] carried(dag.nodes@, from, to))
            is Some implies exists|k: int| 0 <= k < out.len() && (#[trigger] out[k]).0 == to by {
        lemma_dep_bytes(dag.nodes@, from, to);
        lemma_with_edges(dep_bytes(dag.nodes@), dag.edges@, from, to);
        search::law_first_where(list, entry_of(from, to));
        let i = search::first_where(list, entry_of(from, to))->0;
        assert(entry_of(from, to)(list[i]));
        lemma_entry_is_outgoing(list, i);
    }
}

/// A DAG state after edges were satisfied one after the other.
pub open spec fn marked_all(state: DagState, marks: Seq<EdgeKey>) -> DagState
    decreases marks.len(),
{
    if marks.len() == 0 {
        state
    } else {
        marked_all(state, marks.drop_last()).marked(marks.last().0, marks.last().1).0
    }
}

/// The tasks that are released while edges are satisfied one after the other.
pub open spec fn released_by(state: DagState, marks: Seq<EdgeKey>) -> Seq<TaskId>
    decreases marks.len(),
{
    if marks.len() == 0 {
        Seq::empty()
    } else {
        released_by(state, marks.drop_last()) + marked_all(state, marks.drop_last()).marked(
            marks.last().0,
            marks.last().1,
        ).1
    }
}

/// Whether nodes have different indices, edges are different and lie between
/// nodes, and all of that can be numbered.
pub open spec fn tidy(dag: DagTask) -> bool {
    &&& forall|i: int|
        0 <= i < dag.nodes@.len() ==> (#[trigger] dag.nodes@[i]).index <= u32::MAX
    &&& forall|i: int, j: int|
        0 <= i < j < dag.nodes@.len() ==> (#[trigger] dag.nodes@[i]).index != (
        #[trigger] dag.nodes@[j]).index
    &&& forall|i: int|
        0 <= i < dag.edges@.len() ==> is_node(dag, (#[trigger] dag.edges@[i]).0) && is_node(
            dag,
            dag.edges@[i].1,
        )
    &&& forall|i: int, j: int|
        0 <= i < j < dag.edges@.len() ==> #[trigger] dag.edges@[i] != #[trigger] dag.edges@[j]
}

/// Whether a node has an index.
pub open spec fn is_node(dag: DagTask, index: usize) -> bool {
    exists|i: int| 0 <= i < dag.nodes@.len() && (#[trigger] dag.nodes@[i]).index == index
}

/// Whether every edge that leads to a node is among those that were marked.
pub open spec fn all_marked(dag: DagTask, node: SubTaskIdx, marks: Seq<EdgeKey>) -> bool {
    forall|i: int|
        0 <= i < dag.edges@.len() && edge_key(#[trigger] dag.edges@[i]).1 == node
            ==> marks.contains(edge_key(dag.edges@[i]))
}

proof fn lemma_keys_differ(dag: DagTask, i: int, j: int)
    requires
        tidy(dag),
        0 <= i < j < dag.edges@.len(),
    ensures
        edge_key(dag.edges@[i]) != edge_key(dag.edges@[j]),
{
    assert(is_node(dag, dag.edges@[i].0) && is_node(dag, dag.edges@[i].1));
    assert(is_node(dag, dag.edges@[j].0) && is_node(dag, dag.edges@[j].1));
    assert(dag.edges@[i] != dag.edges@[j]);
}

proof fn lemma_proxy(dag: DagTask, base: nat, i: int)
    requires
        tidy(dag),
        0 <= i < dag.nodes@.len(),
    ensures
        registered(dag, base).task_of(SubTaskIdx(dag.nodes@[i].index as u32)) == Some(
            TaskId((base + i) as u32),
        ),
        search::last_where(
            registered(dag, base).proxies,
            runs_node(SubTaskIdx(dag.nodes@[i].index as u32)),
        ) == Some(i),
{
    let proxies = registered(dag, base).proxies;
    let node = SubTaskIdx(dag.nodes@[i].index as u32);
    search::law_last_where(proxies, runs_node(node));
    assert(runs_node(node)(proxies[i]));
    match search::last_where(proxies, runs_node(node)) {
        Some(k) => {
            assert(runs_node(node)(proxies[k]));
            assert(dag.nodes@[k].index == dag.nodes@[i].index);
        },
        None => {},
    }
}

/// What is satisfied after edges were marked: the edges of the DAG among them.
proof fn lemma_marked_all(dag: DagTask, base: nat, marks: Seq<EdgeKey>)
    ensures
        ({
            let s = marked_all(registered(dag, base), marks);
            &&& s.edges == dag.edges@
            &&& s.proxies == registered(dag, base).proxies
            &&& forall|key: EdgeKey| #[trigger]
                s.satisfied.contains(key) <==> marks.contains(key) && edge_keys(
                    dag.edges@,
                ).contains(key)
        }),
    decreases marks.len(),
{
    if marks.len() > 0 {
        let rest = marks.drop_last();
        let last = marks.last();
        lemma_marked_all(dag, base, rest);
        let before = marked_all(registered(dag, base), rest);
        let s = marked_all(registered(dag, base), marks);
        assert(marks =~= rest.push(last));
        assert forall|key: EdgeKey| #[trigger]
            s.satisfied.contains(key) <==> marks.contains(key) && edge_keys(
                dag.edges@,
            ).contains(key) by {
            lemma_push_contains(rest, last, key);
            lemma_push_contains(before.satisfied, last, key);
            assert(before.satisfied.contains(key) <==> rest.contains(key) && edge_keys(
                dag.edges@,
            ).contains(key));
        }
    }
}

proof fn lemma_push_contains(list: Seq<EdgeKey>, last: EdgeKey, key: EdgeKey)
    ensures
        list.push(last).contains(key) <==> list.contains(key) || key == last,
{
    if list.contains(key) {
        let i = choose|i: int| 0 <= i < list.len() && list[i] == key;
        assert(list.push(last)[i] == key);
    }
    if key == last {
        assert(list.push(last)[list.len() as int] == key);
    }
    if list.push(last).contains(key) && key != last {
        let i = choose|i: int| 0 <= i <= list.len() && list.push(last)[i] == key;
        assert(list[i] == key);
    }
}

proof fn lemma_released_when_marked(dag: DagTask, base: nat, marks: Seq<EdgeKey>, node: SubTaskIdx)
    requires
        tidy(dag),
    ensures
        marked_all(registered(dag, base), marks).released(node) <==> all_marked(dag, node, marks),
{
    lemma_marked_all(dag, base, marks);
    let s = marked_all(registered(dag, base), marks);
    let keys = edge_keys(s.edges);
    if all_marked(dag, node, marks) {
        assert forall|i: int| 0 <= i < keys.len() && (#[trigger] keys[i]).1 == node implies
            s.satisfied.contains(keys[i]) && !keys.take(i).contains(keys[i]) by {
            assert(keys[i] == edge_key(dag.edges@[i]));
            assert(keys.contains(keys[i]));
            assert(marks.contains(keys[i]));
            if keys.take(i).contains(keys[i]) {
                let j = choose|j: int| 0 <= j < i && keys.take(i)[j] == keys[i];
                lemma_keys_differ(dag, j, i);
            }
        }
    }
    if s.released(node) {
        assert forall|i: int|
            0 <= i < dag.edges@.len() && edge_key(#[trigger] dag.edges@[i]).1
                == node implies marks.contains(edge_key(dag.edges@[i])) by {
            assert(keys[i] == edge_key(dag.edges@[i]));
            assert(s.satisfied.contains(keys[i]));
        }
    }
}

proof fn lemma_ready_count(dag: DagTask, base: nat, n: int, i: int)
    requires
        tidy(dag),
        base + dag.nodes@.len() <= u32::MAX,
        0 <= n <= dag.nodes@.len(),
        0 <= i < dag.nodes@.len(),
    ensures
        registered(dag, base).ready(n).to_multiset().count(TaskId((base + i) as u32)) == if i < n
            && all_marked(dag, SubTaskIdx(dag.nodes@[i].index as u32), Seq::empty()) {
            1nat
        } else {
            0nat
        },
    decreases n,
{
    broadcast use vstd::seq_lib::group_to_multiset_ensures;

    if n > 0 {
        let s = registered(dag, base);
        lemma_ready_count(dag, base, n - 1, i);
        lemma_proxy(dag, base, n - 1);
        lemma_released_when_marked(
            dag,
            base,
            Seq::empty(),
            SubTaskIdx(dag.nodes@[n - 1].index as u32),
        );
        assert(marked_all(s, Seq::empty()) == s);
        assert(s.proxies[n - 1].task_id == TaskId((base + n - 1) as u32));
    }
}

/// A DAG whose nodes have different indices and whose edges are different ones
/// between its nodes releases every node once, as soon as all edges that lead
/// to it have been marked and no earlier, in whatever order and however often
/// edges are marked. What is ready at registration counts as released without
/// any mark.
pub proof fn law_nodes_are_released_once(dag: DagTask, base: nat, marks: Seq<EdgeKey>, i: int)
    requires
        tidy(dag),
        base + dag.nodes@.len() <= u32::MAX,
        0 <= i < dag.nodes@.len(),
    ensures
        (registered(dag, base).ready(dag.nodes@.len() as int) + released_by(
            registered(dag, base),
            marks,
        )).to_multiset().count(TaskId((base + i) as u32)) == if all_marked(
            dag,
            SubTaskIdx(dag.nodes@[i].index as u32),
            marks,
        ) {
            1nat
        } else {
            0nat
        },
    decreases marks.len(),
{
    broadcast use vstd::seq_lib::group_to_multiset_ensures;

    let s = registered(dag, base);
    let n = dag.nodes@.len() as int;
    let ready = s.ready(n);
    let id = TaskId((base + i) as u32);
    let node = SubTaskIdx(dag.nodes@[i].index as u32);
    if marks.len() == 0 {
        lemma_ready_count(dag, base, n, i);
        assert(marks =~= Seq::empty());
        assert(ready + released_by(s, marks) =~= ready);
    } else {
        let rest = marks.drop_last();
        let (from, to) = marks.last();
        law_nodes_are_released_once(dag, base, rest, i);
        lemma_marked_all(dag, base, rest);
        let before = marked_all(s, rest);
        let earlier = ready + released_by(s, rest);
        let given = before.marked(from, to).1;
        assert(ready + released_by(s, marks) =~= earlier + given);
        assert(marks =~= rest.push((from, to)));
        assert forall|key: EdgeKey| #[trigger] marks.contains(key) <==> rest.contains(key) || key
            == (from, to) by {
            lemma_push_contains(rest, (from, to), key);
        }
        if !edge_keys(before.edges).contains((from, to)) || before.satisfied.contains((from, to)) {
            assert(earlier + given =~= earlier);
            assert forall|j: int|
                0 <= j < dag.edges@.len() && edge_key(#[trigger] dag.edges@[j]).1
                    == node implies marks.contains(edge_key(dag.edges@[j])) == rest.contains(
                edge_key(dag.edges@[j]),
            ) by {
                assert(edge_keys(before.edges)[j] == edge_key(dag.edges@[j]));
                assert(edge_keys(before.edges).contains(edge_key(dag.edges@[j])));
            }
        } else {
            let at = choose|j: int|
                0 <= j < edge_keys(before.edges).len() && edge_keys(before.edges)[j] == (from, to);
            let edge = dag.edges@[at];
            assert(edge_key(edge) == (from, to));
            assert(!rest.contains((from, to)));
            assert(is_node(dag, edge.1));
            let k = choose|k: int| 0 <= k < n && (#[trigger] dag.nodes@[k]).index == edge.1;
            lemma_proxy(dag, base, k);
            lemma_released_when_marked(dag, base, marks, to);
            let after = marked_all(s, marks);
            assert(after.task_of(to) == Some(TaskId((base + k) as u32)));
            if all_marked(dag, to, marks) {
                assert(earlier + given =~= earlier.push(TaskId((base + k) as u32)));
            } else {
                assert(earlier + given =~= earlier);
            }
            if k == i {
                assert(node == to);
                assert(!all_marked(dag, node, rest));
            } else {
                assert(dag.nodes@[k].index != dag.nodes@[i].index);
                assert(node != to);
                assert(all_marked(dag, node, marks) == all_marked(dag, node, rest));
            }
        }
    }
}

/// Whether a proxy is the last one of a node.
pub open spec fn is_last_proxy(state: DagState, node: SubTaskIdx, i: int) -> bool {
    &&& 0 <= i < state.proxies.len()
    &&& state.proxies[i].node == node
    &&& forall|j: int| i < j < state.proxies.len() ==> (#[trigger] state.proxies[j]).node != node
}

/// Satisfying the last open edge into a node releases its task. Before that,
/// or for what is no open edge, nothing is released; what is no open edge
/// changes nothing at all.
pub proof fn law_the_last_edge_releases(
    state: DagState,
    from: SubTaskIdx,
    to: SubTaskIdx,
    i: int,
)
    ensures
        ({
            let keys = edge_keys(state.edges);
            let open = keys.contains((from, to)) && !state.satisfied.contains((from, to));
            let (after, tasks) = state.marked(from, to);
            &&& !open ==> after == state && tasks.len() == 0
            &&& open ==> after =~= (DagState {
                satisfied: state.satisfied.push((from, to)),
                ..state
            })
            &&& open && (exists|k: int|
                0 <= k < keys.len() && (#[trigger] keys[k]).1 == to && keys[k] != (from, to)
                    && !state.satisfied.contains(keys[k])) ==> tasks.len() == 0
            &&& open && is_last_proxy(state, to, i) && (forall|k: int|
                0 <= k < keys.len() && (#[trigger] keys[k]).1 == to && keys[k] != (from, to)
                    ==> state.satisfied.contains(keys[k])) && (forall|k: int, l: int|
                0 <= k < l < keys.len() && (#[trigger] keys[l]).1 == to ==> (#[trigger] keys[k])
                    != keys[l]) ==> tasks =~= seq![state.proxies[i].task_id]
        }),
{
    let keys = edge_keys(state.edges);
    let after = DagState { satisfied: state.satisfied.push((from, to)), ..state };
    let open = keys.contains((from, to)) && !state.satisfied.contains((from, to));
    if open {
        assert forall|key: EdgeKey| #[trigger] after.satisfied.contains(key)
            <==> state.satisfied.contains(key) || key == (from, to) by {
            search::lemma_push(state.satisfied, (from, to), key);
        }
        if exists|k: int|
            0 <= k < keys.len() && (#[trigger] keys[k]).1 == to && keys[k] != (from, to)
                && !state.satisfied.contains(keys[k]) {
            let k = choose|k: int|
                0 <= k < keys.len() && (#[trigger] keys[k]).1 == to && keys[k] != (from, to)
                    && !state.satisfied.contains(keys[k]);
            assert(!after.satisfied.contains(keys[k]));
            assert(edge_keys(after.edges)[k].1 == to);
            assert(!after.released(to));
        }
        if is_last_proxy(state, to, i) {
            let cond = runs_node(to);
            search::law_last_where(state.proxies, cond);
            assert(cond(state.proxies[i]));
            let at = search::last_where(state.proxies, cond);
            assert(state.proxies[at->0].node == to);
            if (forall|k: int|
                0 <= k < keys.len() && (#[trigger] keys[k]).1 == to && keys[k] != (from, to)
                    ==> state.satisfied.contains(keys[k])) && (forall|k: int, l: int|
                0 <= k < l < keys.len() && (#[trigger] keys[l]).1 == to ==> (#[trigger] keys[k])
                    != keys[l]) {
                assert(after.released(to)) by {
                    assert forall|l: int|
                        0 <= l < keys.len() && (#[trigger] keys[l]).1 == to implies
                        after.satisfied.contains(keys[l]) && !keys.take(l).contains(keys[l]) by {
                        if keys.take(l).contains(keys[l]) {
                            let k = choose|k: int|
                                0 <= k < keys.take(l).len() && keys.take(l)[k] == keys[l];
                            assert(keys[k] == keys[l]);
                        }
                    }
                }
            }
        }
    }
}

/// When a DAG is registered, the proxy of each node has the index of the node
/// and the next task id, and no edge is satisfied.
pub proof fn law_proxies_are_numbered(dag: DagTask, base: nat, i: int)
    requires
        0 <= i < dag.nodes@.len(),
        base + dag.nodes@.len() <= u32::MAX,
    ensures
        registered(dag, base).proxies.len() == dag.nodes@.len(),
        registered(dag, base).proxies[i].task_id.0 == base + i,
        dag.nodes@[i].index <= u32::MAX ==> registered(dag, base).proxies[i].node.0
            == dag.nodes@[i].index,
        registered(dag, base).edges == dag.edges@,
        registered(dag, base).satisfied.len() == 0,
{
}

/// A proxy task arrives on demand, has the deadline and criticality of its DAG,
/// and runs as its node does; it moves no data of its own.
pub proof fn law_proxies_run_as_their_nodes(
    proxy: Task,
    dag: DagTask,
    node: SubTask,
    task_id: TaskId,
    instance: DagInstanceId,
)
    requires
        is_proxy(proxy, dag, node, task_id, instance),
    ensures
        proxy.id == task_id,
        proxy.priority == 1,
        proxy.arrival is Aperiodic,
        proxy.deadline == dag.deadline,
        proxy.criticality == dag.criticality,
        proxy.exec_times@ == node.exec_times@,
        proxy.affinity@ == node.affinity@,
        proxy.data_size == 0,
{
}

} // verus!

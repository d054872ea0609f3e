//! Identifiers of DAG instances, their nodes and their edges.

use vstd::prelude::*;

verus! {

/// Runtime DAG instance identifier.
#[derive(Debug, Clone, Copy, PartialEq, Eq, Hash, PartialOrd, Ord, Structural)]
pub struct DagInstanceId(pub u64);

/// Sub-task index within a DAG.
#[derive(Debug, Clone, Copy, PartialEq, Eq, Hash, PartialOrd, Ord, Structural)]
pub struct SubTaskIdx(pub u32);

impl Default for DagInstanceId {
    fn default() -> (id: Self)
        ensures
            id == DagInstanceId(0),
    {
        DagInstanceId(0)
    }
}

impl Default for SubTaskIdx {
    fn default() -> (idx: Self)
        ensures
            idx == SubTaskIdx(0),
    {
        SubTaskIdx(0)
    }
}

/// Provenance carried by a job that originates from a DAG node.
#[derive(Debug, Clone, Copy, PartialEq, Eq, Hash, Structural)]
pub struct DagProvenance {
    pub dag_instance_id: DagInstanceId,
    pub node: SubTaskIdx,
}

/// Token identifying the data transfer on a DAG edge.
#[derive(Debug, Clone, Copy, PartialEq, Eq, Hash, Structural)]
pub struct EdgeTransferId {
    pub dag_instance_id: DagInstanceId,
    pub from_node: SubTaskIdx,
    pub to_node: SubTaskIdx,
}

} // verus!

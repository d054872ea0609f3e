//! Newtype identifiers.

use vstd::prelude::*;

verus! {

/// Identifies a task.
#[derive(Debug, Clone, Copy, PartialEq, Eq, Hash, PartialOrd, Ord, Structural)]
pub struct TaskId(pub u32);

/// Identifies a job, one release of a task.
#[derive(Debug, Clone, Copy, PartialEq, Eq, Hash, PartialOrd, Ord, Structural)]
pub struct JobId(pub u64);

/// Identifies a device.
#[derive(Debug, Clone, Copy, PartialEq, Eq, Hash, PartialOrd, Ord, Structural)]
pub struct DeviceId(pub u32);

/// Identifies a shared bus.
#[derive(Debug, Clone, Copy, PartialEq, Eq, Hash, PartialOrd, Ord, Structural)]
pub struct BusId(pub u32);

/// Identifies a task chain.
#[derive(Debug, Clone, Copy, PartialEq, Eq, Hash, PartialOrd, Ord, Structural)]
pub struct ChainId(pub u32);

} // verus!

//! Heterogeneous real-time scheduling simulator.
//!
//! A discrete-event engine releases jobs of real-time tasks onto CPUs, GPUs,
//! DSPs and FPGAs, asks a scheduling algorithm what to do at every event and
//! collects metrics. Every item of the library carries a contract that Verus
//! proves.

pub mod agree;
pub mod analysis;
pub mod arith;
pub mod catalog;
pub mod counsel;
pub mod course;
pub mod dag;
pub mod dag_tracker;
pub mod device;
pub mod device_manager;
pub mod drive;
pub mod engine;
pub mod event;
pub mod event_queue;
pub mod experiment;
pub mod figures;
pub mod ids;
pub mod job;
pub mod json;
pub mod metrics;
pub mod motion;
pub mod occurrence;
pub mod order;
pub mod outset;
pub mod pace;
pub mod platform;
pub mod policy;
pub mod reading;
pub mod replay;
pub mod report;
pub mod scheduler;
pub mod schedulers;
pub mod search;
pub mod select;
pub mod settings;
pub mod sim;
pub mod sound;
pub mod sweep;
pub mod task;
pub mod text;
pub mod time;
pub mod traffic;
pub mod transfer_manager;
pub mod virtual_device;
pub mod words;

pub use dag::{DagInstanceId, DagProvenance, EdgeTransferId, SubTaskIdx};
pub use device::{
    BusArbitration, DeviceConfig, InterconnectConfig, MultiCorePolicy, PreemptionModel,
    SharedBusConfig,
};
pub use event::{Event, EventKind};
pub use ids::{BusId, ChainId, DeviceId, JobId, TaskId};
pub use job::{Job, JobState};
pub use policy::{ExecutionModel, PreemptionPolicy};
pub use scheduler::{
    Action, QueuedJobInfo, ReevaluationPolicy, ReevaluationTrigger, RunningJobInfo, Scheduler,
    SchedulerView,
};
pub use task::{
    ArrivalModel, CriticalityLevel, DagTask, DeviceType, E2EMetric, ExecutionTimeModel, SubTask,
    Task, TaskChain,
};
pub use time::Nanos;

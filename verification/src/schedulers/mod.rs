//! Scheduling algorithms.

pub mod conduct;
pub mod contention;
pub mod cpedf;
pub mod edf;
pub mod edfvd;
pub mod federated;
pub mod fixed_priority;
pub mod gang;
pub mod gangs;
pub mod global_edf;
pub mod gpreempt;
pub mod gpu_preemptive_priority;
pub mod heft;
pub mod homes;
pub mod llf;
pub mod match_sched;
pub mod modes;
pub mod placement;
pub mod progress;
pub mod rank;
pub mod recall;
pub mod rtgpu;
pub mod tables;
pub mod timetable;
pub mod xsched;

pub use cpedf::CpEdfScheduler;
pub use edf::EdfScheduler;
pub use edfvd::EdfVdScheduler;
pub use federated::FederatedScheduler;
pub use fixed_priority::FixedPriorityScheduler;
pub use gang::GangScheduler;
pub use global_edf::GlobalEdfScheduler;
pub use gpreempt::GPreemptScheduler;
pub use gpu_preemptive_priority::GpuPreemptivePriorityScheduler;
pub use heft::{HeftPlan, HeftPlanner, HeftScheduler};
pub use llf::LlfScheduler;
pub use match_sched::MatchScheduler;
pub use rtgpu::RtgpuScheduler;
pub use xsched::XSchedScheduler;

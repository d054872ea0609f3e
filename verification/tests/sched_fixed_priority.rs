//! Fixed priorities.

use hprss_sim::schedulers::FixedPriorityScheduler;
use hprss_sim::Scheduler;

#[test]
fn fp_scheduler_name() {
    let sched = FixedPriorityScheduler;
    assert_eq!(sched.name(), "FP-Het");
}

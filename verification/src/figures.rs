//! What the figures of a result mean, said of the records of a run.

use crate::arith;
use crate::arith::{Rate, Ratio};
use crate::device::DeviceConfig;
use crate::engine;
use crate::engine::SimResult;
use crate::metrics;
use crate::metrics::{CompletionRecord, MetricsCollector};
use crate::sim::Sim;
use crate::time::Nanos;
use vstd::prelude::*;

verus! {

/// Whether a ratio is a quotient, or zero where there is nothing to divide by.
pub open spec fn is_quotient(ratio: Ratio, n: int, d: int) -> bool {
    if d == 0 {
        ratio.num == 0 && ratio.den == 1
    } else {
        ratio.num == n && ratio.den == d
    }
}

/// Time from the release of a job to its completion.
pub open spec fn response_of(c: CompletionRecord) -> int {
    if c.completion_time < c.release_time {
        0
    } else {
        c.completion_time - c.release_time
    }
}

/// The response times of jobs.
pub open spec fn responses(completions: Seq<CompletionRecord>) -> Seq<int> {
    completions.map_values(|c: CompletionRecord| response_of(c))
}

/// The sum of a list of numbers.
pub open spec fn sum_of(numbers: Seq<int>) -> int {
    numbers.fold_left(0int, |total: int, n: int| total + n)
}

/// Whether a release is the first one of all completed jobs.
pub open spec fn is_first_release(completions: Seq<CompletionRecord>, i: int) -> bool {
    &&& 0 <= i < completions.len()
    &&& forall|k: int|
        0 <= k < completions.len() ==> completions[i].release_time <= (
        #[trigger] completions[k]).release_time
}

/// Whether a completion is the last one of all.
pub open spec fn is_last_completion(completions: Seq<CompletionRecord>, j: int) -> bool {
    &&& 0 <= j < completions.len()
    &&& forall|k: int|
        0 <= k < completions.len() ==> (#[trigger] completions[k]).completion_time
            <= completions[j].completion_time
}

/// Whether a time is that from the first release to the last completion.
pub open spec fn is_span(completions: Seq<CompletionRecord>, time: int) -> bool {
    exists|i: int, j: int|
        #![trigger is_first_release(completions, i), is_last_completion(completions, j)]
        is_first_release(completions, i) && is_last_completion(completions, j) && time == if completions[j].completion_time
            < completions[i].release_time {
            0
        } else {
            completions[j].completion_time - completions[i].release_time
        }
}

proof fn lemma_first_release(completions: Seq<CompletionRecord>) -> (i: int)
    requires
        completions.len() > 0,
    ensures
        is_first_release(completions, i),
        metrics::first_release(completions) == completions[i].release_time,
    decreases completions.len(),
{
    if completions.len() == 1 {
        0
    } else {
        let rest = completions.drop_last();
        let last = completions.len() - 1;
        let i = lemma_first_release(rest);
        assert forall|k: int| 0 <= k < rest.len() implies rest[k] == #[trigger] completions[k] by {}
        assert(completions[i].release_time == rest[i].release_time);
        assert forall|k: int| 0 <= k < rest.len() implies completions[i].release_time <= (
        #[trigger] completions[k]).release_time by {
            assert(rest[i].release_time <= rest[k].release_time);
        }
        if completions[last].release_time < rest[i].release_time {
            last
        } else {
            i
        }
    }
}

proof fn lemma_last_completion(completions: Seq<CompletionRecord>) -> (j: int)
    requires
        completions.len() > 0,
    ensures
        is_last_completion(completions, j),
        metrics::last_completion(completions) == completions[j].completion_time,
    decreases completions.len(),
{
    if completions.len() == 1 {
        0
    } else {
        let rest = completions.drop_last();
        let last = completions.len() - 1;
        let j = lemma_last_completion(rest);
        assert forall|k: int| 0 <= k < rest.len() implies rest[k] == #[trigger] completions[k] by {}
        assert(completions[j].completion_time == rest[j].completion_time);
        assert forall|k: int| 0 <= k < rest.len() implies (
        #[trigger] completions[k]).completion_time <= completions[j].completion_time by {
            assert(rest[k].completion_time <= rest[j].completion_time);
        }
        if completions[last].completion_time > rest[j].completion_time {
            last
        } else {
            j
        }
    }
}

/// The makespan is the time from the first release to the last completion;
/// there is none without a completion.
pub proof fn law_makespan_is_the_whole_span(completions: Seq<CompletionRecord>)
    ensures
        match metrics::span(completions) {
            Some(ns) => completions.len() > 0 && is_span(completions, ns as int),
            None => completions.len() == 0,
        },
{
    if completions.len() > 0 {
        let i = lemma_first_release(completions);
        let j = lemma_last_completion(completions);
        assert(is_first_release(completions, i) && is_last_completion(completions, j));
    }
}

/// The response times add up to the total.
pub proof fn law_responses_add_up(completions: Seq<CompletionRecord>)
    ensures
        metrics::total_response(completions) == sum_of(responses(completions)),
    decreases completions.len(),
{
    let all = responses(completions);
    reveal_with_fuel(Seq::fold_left, 2);
    if completions.len() > 0 {
        law_responses_add_up(completions.drop_last());
        assert(all.drop_last() =~= responses(completions.drop_last()));
        assert(all.last() == response_of(completions.last()));
    }
}

/// The worst response time is one of the response times, and none is longer.
pub proof fn law_worst_response_is_one(completions: Seq<CompletionRecord>)
    ensures
        match metrics::longest_response(completions) {
            Some(ns) => {
                &&& forall|k: int|
                    0 <= k < completions.len() ==> response_of(#[trigger] completions[k]) <= ns
                &&& exists|k: int|
                    0 <= k < completions.len() && response_of(#[trigger] completions[k]) == ns
            },
            None => completions.len() == 0,
        },
{
    metrics::law_longest_response(completions);
    if let Some(ns) = metrics::longest_response(completions) {
        let k = choose|k: int|
            0 <= k < completions.len() && (#[trigger] completions[k]).response() == ns;
        assert(response_of(completions[k]) == ns);
        assert forall|m: int| 0 <= m < completions.len() implies response_of(
            #[trigger] completions[m],
        ) <= ns by {
            assert(completions[m].response() <= ns);
        }
    }
}

/// Whether a number is the energy of a device in picojoules: thousandths of
/// power times busy time, rounded down, and none where the power is unknown.
pub open spec fn is_energy(power: Option<Rate>, busy: Nanos, e: int) -> bool {
    match power {
        None => e == 0,
        Some(rate) => if busy == 0 || rate.num == 0 {
            e == 0
        } else if rate.den == 0 {
            e == u128::MAX
        } else {
            exists|n: int| #[trigger]
                is_whole_part(busy * rate.num * 1000, rate.den as int, n) && e == if n
                    > u128::MAX {
                    u128::MAX as int
                } else {
                    n
                }
        },
    }
}

/// Whether a number is a quotient rounded down.
pub open spec fn is_whole_part(n: int, d: int, q: int) -> bool {
    q * d <= n && n < (q + 1) * d
}

/// The energy of a run is the sum of the energies of the devices, held at the
/// largest number.
pub proof fn law_energy_adds_up(devices: Seq<DeviceConfig>, busy: Seq<Nanos>, n: int) -> (e: int)
    requires
        n >= 0,
    ensures
        engine::energy(devices, busy, 0) == 0,
        is_energy(devices[n].power_watts, busy[n], e),
        engine::energy(devices, busy, n + 1) == if engine::energy(devices, busy, n) + e
            > u128::MAX {
            u128::MAX as int
        } else {
            engine::energy(devices, busy, n) + e
        },
{
    match devices[n].power_watts {
        None => 0,
        Some(rate) => {
            if busy[n] != 0 && rate.num != 0 && rate.den != 0 {
                let m = busy[n] * rate.num * 1000;
                let den = rate.den as int;
                assert(m >= 0) by (nonlinear_arith)
                    requires
                        m == busy[n] * rate.num * 1000,
                ;
                let q = m / den;
                assert(q >= 0 && q * den <= m && m < (q + 1) * den) by (nonlinear_arith)
                    requires
                        m >= 0,
                        den > 0,
                        q == m / den,
                ;
                assert(is_whole_part(m, den, q));
            }
            arith::thousandths_at_rate(busy[n], rate) as int
        },
    }
}

/// The figures of a result are those of the run: what was counted, ratios of
/// these, the makespan and the response times of the completed jobs, the share
/// of the makespan for which each device was busy, and the time that transfers
/// took and waited.
pub proof fn law_results_are_those_of_the_run(s: Sim, result: &SimResult, i: int)
    requires
        engine::reports(s, result),
    ensures
        result.total_jobs == s.tally.total,
        result.completed_jobs == s.tally.completed,
        result.deadline_misses == s.tally.missed,
        is_quotient(result.miss_ratio, s.tally.missed as int, s.tally.total as int),
        result.schedulable <==> s.tally.missed == 0,
        s.tally.completions.len() == 0 ==> result.makespan == 0 && result.worst_response_time == 0
            && result.avg_response_time.num == 0,
        s.tally.completions.len() > 0 ==> {
            &&& is_span(s.tally.completions, result.makespan as int)
            &&& result.avg_response_time.num == sum_of(responses(s.tally.completions))
            &&& result.avg_response_time.den == s.tally.completions.len()
            &&& forall|k: int|
                0 <= k < s.tally.completions.len() ==> response_of(
                    #[trigger] s.tally.completions[k],
                ) <= result.worst_response_time
            &&& exists|k: int|
                0 <= k < s.tally.completions.len() && response_of(
                    #[trigger] s.tally.completions[k],
                ) == result.worst_response_time
        },
        result.events_processed == s.processed,
        result.preemption_count == s.preemptions,
        result.migration_count == s.migrations,
        result.transfer_overhead == s.transfers.stats.total_transfer_time_ns,
        result.blocking_breakdown.transfer_ns == s.transfers.stats.total_transfer_time_ns,
        result.blocking_breakdown.migration_ns == s.transfers.stats.migration_transfer_time_ns,
        result.blocking_breakdown.bus_wait_ns == s.transfers.stats.bus_wait_time_ns,
        is_quotient(
            result.bus_contention_ratio,
            s.transfers.stats.bus_transfer_contentions as int,
            s.transfers.stats.bus_transfer_requests as int,
        ),
        result.per_device_utilization@.len() == s.devices.len(),
        0 <= i < s.devices.len() ==> {
            let u = result.per_device_utilization@[i];
            &&& u.device_id == s.devices[i].id
            &&& u.busy_ns == s.busy[i]
            &&& is_quotient(u.utilization, s.busy[i] as int, result.makespan as int)
        },
        result.energy_picojoules == engine::energy(s.devices, s.busy, s.devices.len() as int),
{
    let c = s.tally.completions;
    law_makespan_is_the_whole_span(c);
    law_responses_add_up(c);
    law_worst_response_is_one(c);
}

/// The lines of a trace tell of each completion and of each miss: what
/// happened, when, and to which job of which task.
pub proof fn law_trace_lines(m: &MetricsCollector, i: int)
    ensures
        metrics::completion_rows(m.completions@).len() == m.completions@.len(),
        metrics::miss_rows(m.misses@).len() == m.misses@.len(),
        0 <= i < m.completions@.len() ==> {
            let row = metrics::completion_rows(m.completions@)[i];
            &&& row.completed
            &&& row.time == m.completions@[i].completion_time
            &&& row.job_id == m.completions@[i].job_id
            &&& row.task_id == m.completions@[i].task_id
            &&& row.event() == "job_complete"@
        },
        0 <= i < m.misses@.len() ==> {
            let row = metrics::miss_rows(m.misses@)[i];
            &&& !row.completed
            &&& row.time == m.misses@[i].miss_time
            &&& row.job_id == m.misses@[i].job_id
            &&& row.task_id == m.misses@[i].task_id
            &&& row.event() == "deadline_miss"@
        },
{
}

} // verus!

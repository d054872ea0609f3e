//! Metrics collection and result output.
//!
//! Tracks schedulability, deadline miss ratio, response times, device
//! utilization and end-to-end latency.

use crate::arith;
use crate::arith::Ratio;
use crate::ids::{DeviceId, JobId, TaskId};
use crate::json;
use crate::order;
use crate::search;
use crate::task::TaskChain;
use crate::text;
use crate::time::Nanos;
use vstd::prelude::*;
use vstd::string::*;

verus! {

/// How much of the observed time a device was busy.
#[derive(Debug, Clone, Copy, PartialEq, Eq, Structural)]
pub struct DeviceUtilization {
    pub device_id: DeviceId,
    pub busy_ns: Nanos,
    pub utilization: Ratio,
}

/// Where jobs lost time to data movement.
#[derive(Debug, Clone, Copy, PartialEq, Eq, Structural)]
pub struct BlockingBreakdown {
    pub transfer_ns: Nanos,
    pub migration_ns: Nanos,
    pub bus_wait_ns: Nanos,
}

impl Default for BlockingBreakdown {
    fn default() -> (none: Self)
        ensures
            none == (BlockingBreakdown { transfer_ns: 0, migration_ns: 0, bus_wait_ns: 0 }),
    {
        BlockingBreakdown { transfer_ns: 0, migration_ns: 0, bus_wait_ns: 0 }
    }
}

/// A job that completed.
#[derive(Debug, Clone, Copy, PartialEq, Eq, Structural)]
pub struct CompletionRecord {
    pub job_id: JobId,
    pub task_id: TaskId,
    pub release_time: Nanos,
    pub completion_time: Nanos,
}

impl CompletionRecord {
    /// Time from release to completion.
    pub open spec fn response(self) -> Nanos {
        arith::sat_sub(self.completion_time, self.release_time)
    }
}

/// A job that missed its deadline.
#[derive(Debug, Clone, Copy, PartialEq, Eq, Structural)]
pub struct MissRecord {
    pub job_id: JobId,
    pub task_id: TaskId,
    pub miss_time: Nanos,
}

/// One line of the trace.
#[derive(Debug, Clone, Copy, PartialEq, Eq, Structural)]
pub struct TraceRecord {
    /// Whether the job completed; otherwise it missed its deadline.
    pub completed: bool,
    pub time: Nanos,
    pub job_id: JobId,
    pub task_id: TaskId,
}

impl TraceRecord {
    /// What happened.
    pub open spec fn event(self) -> Seq<char> {
        if self.completed {
            "job_complete"@
        } else {
            "deadline_miss"@
        }
    }

    /// The line as a JSON object.
    pub open spec fn json(self) -> Seq<char> {
        "{\"event\":"@ + json::string_text(self.event()) + ",\"time\":"@ + text::decimal(self.time as nat) + ",\"job_id\":"@ + text::decimal(
            self.job_id.0 as nat,
        ) + ",\"task_id\":"@ + text::decimal(self.task_id.0 as nat) + "}\n"@
    }
}

/// The earliest release among completed jobs.
pub open spec fn first_release(completions: Seq<CompletionRecord>) -> Nanos
    decreases completions.len(),
{
    if completions.len() <= 1 {
        completions[0].release_time
    } else {
        let rest = first_release(completions.drop_last());
        if completions.last().release_time < rest {
            completions.last().release_time
        } else {
            rest
        }
    }
}

/// The latest completion.
pub open spec fn last_completion(completions: Seq<CompletionRecord>) -> Nanos
    decreases completions.len(),
{
    if completions.len() <= 1 {
        completions[0].completion_time
    } else {
        let rest = last_completion(completions.drop_last());
        if completions.last().completion_time > rest {
            completions.last().completion_time
        } else {
            rest
        }
    }
}

/// Time from the first release to the last completion.
pub open spec fn span(completions: Seq<CompletionRecord>) -> Option<Nanos> {
    if completions.len() == 0 {
        None
    } else {
        Some(arith::sat_sub(last_completion(completions), first_release(completions)))
    }
}

/// The sum of all response times.
pub open spec fn total_response(completions: Seq<CompletionRecord>) -> nat
    decreases completions.len(),
{
    if completions.len() == 0 {
        0
    } else {
        total_response(completions.drop_last()) + completions.last().response() as nat
    }
}

/// The longest response time.
pub open spec fn longest_response(completions: Seq<CompletionRecord>) -> Option<Nanos>
    decreases completions.len(),
{
    if completions.len() == 0 {
        None
    } else {
        let here = completions.last().response();
        match longest_response(completions.drop_last()) {
            None => Some(here),
            Some(rest) => Some(
                if here > rest {
                    here
                } else {
                    rest
                },
            ),
        }
    }
}

/// The lines of completed jobs.
pub open spec fn completion_rows(completions: Seq<CompletionRecord>) -> Seq<TraceRecord> {
    Seq::new(
        completions.len(),
        |i: int|
            TraceRecord {
                completed: true,
                time: completions[i].completion_time,
                job_id: completions[i].job_id,
                task_id: completions[i].task_id,
            },
    )
}

/// The lines of missed deadlines.
pub open spec fn miss_rows(misses: Seq<MissRecord>) -> Seq<TraceRecord> {
    Seq::new(
        misses.len(),
        |i: int|
            TraceRecord {
                completed: false,
                time: misses[i].miss_time,
                job_id: misses[i].job_id,
                task_id: misses[i].task_id,
            },
    )
}

/// Orders lines by time.
pub open spec fn row_time() -> spec_fn(TraceRecord) -> int {
    |r: TraceRecord| r.time as int
}

/// Orders completions by time.
pub open spec fn completion_time() -> spec_fn(CompletionRecord) -> int {
    |c: CompletionRecord| c.completion_time as int
}

/// Lines one after the other.
pub open spec fn lines(rows: Seq<TraceRecord>) -> Seq<char>
    decreases rows.len(),
{
    if rows.len() == 0 {
        Seq::empty()
    } else {
        lines(rows.drop_last()) + rows.last().json()
    }
}

/// Whether a completion can follow in a chain: it is of the task and not
/// before a time.
pub open spec fn follows(task_id: TaskId, time: Nanos) -> spec_fn(CompletionRecord) -> bool {
    |c: CompletionRecord| c.task_id == task_id && c.completion_time >= time
}

/// When data that leaves at a time has passed through tasks, each of which
/// picks it up at its first completion after the one before.
pub open spec fn chain_end(
    completions: Seq<CompletionRecord>,
    tasks: Seq<TaskId>,
    time: Nanos,
) -> Option<Nanos>
    decreases tasks.len(),
{
    if tasks.len() == 0 {
        Some(time)
    } else {
        match chain_end(completions, tasks.drop_last(), time) {
            None => None,
            Some(t) => match search::first_where(completions, follows(tasks.last(), t)) {
                None => None,
                Some(i) => Some(completions[i].completion_time),
            },
        }
    }
}

/// The reaction time of a chain that starts with a completion.
pub open spec fn reaction_from(
    completions: Seq<CompletionRecord>,
    tasks: Seq<TaskId>,
    start: CompletionRecord,
) -> Option<Nanos> {
    if start.task_id != tasks[0] {
        None
    } else {
        match chain_end(completions, tasks.skip(1), start.completion_time) {
            None => None,
            Some(end) => Some(arith::sat_sub(end, start.release_time)),
        }
    }
}

/// The longest reaction time of a chain over its starts, among the first `n`
/// completions.
pub open spec fn longest_reaction(
    completions: Seq<CompletionRecord>,
    tasks: Seq<TaskId>,
    n: int,
) -> Option<Nanos>
    decreases n,
{
    if n <= 0 {
        None
    } else {
        let rest = longest_reaction(completions, tasks, n - 1);
        match reaction_from(completions, tasks, completions[n - 1]) {
            None => rest,
            Some(rt) => match rest {
                Some(prev) if prev > rt => Some(prev),
                _ => Some(rt),
            },
        }
    }
}

/// Collects simulation metrics.
#[derive(Debug)]
pub struct MetricsCollector {
    pub total_jobs: u64,
    pub completed_jobs: u64,
    pub deadline_misses: u64,
    pub completions: Vec<CompletionRecord>,
    pub misses: Vec<MissRecord>,
}

impl Default for MetricsCollector {
    fn default() -> (m: Self)
        ensures
            m.is_empty(),
    {
        MetricsCollector {
            total_jobs: 0,
            completed_jobs: 0,
            deadline_misses: 0,
            completions: Vec::new(),
            misses: Vec::new(),
        }
    }
}

impl MetricsCollector {
    /// Whether nothing has been recorded.
    pub open spec fn is_empty(&self) -> bool {
        &&& self.total_jobs == 0
        &&& self.completed_jobs == 0
        &&& self.deadline_misses == 0
        &&& self.completions@.len() == 0
        &&& self.misses@.len() == 0
    }

    /// Whether the counters agree with the records.
    pub open spec fn wf(&self) -> bool {
        &&& self.completed_jobs == arith::clamp_u64(self.completions@.len() as int)
        &&& self.deadline_misses == arith::clamp_u64(self.misses@.len() as int)
    }

    /// A collector without records.
    pub fn new() -> (m: Self)
        ensures
            m.is_empty(),
            m.wf(),
    {
        Self::default()
    }

    /// Counts a released job.
    pub fn record_job_release(&mut self)
        ensures
            final(self).total_jobs == arith::sat_add(old(self).total_jobs, 1),
            final(self).completed_jobs == old(self).completed_jobs,
            final(self).deadline_misses == old(self).deadline_misses,
            final(self).completions@ == old(self).completions@,
            final(self).misses@ == old(self).misses@,
    {
        self.total_jobs = self.total_jobs.saturating_add(1);
    }

    /// Records a completed job.
    pub fn record_completion(
        &mut self,
        job_id: JobId,
        task_id: TaskId,
        release_time: Nanos,
        time: Nanos,
    )
        ensures
            final(self).total_jobs == old(self).total_jobs,
            final(self).completed_jobs == arith::sat_add(old(self).completed_jobs, 1),
            final(self).deadline_misses == old(self).deadline_misses,
            final(self).completions@ == old(self).completions@.push(
                CompletionRecord { job_id, task_id, release_time, completion_time: time },
            ),
            final(self).misses@ == old(self).misses@,
            old(self).wf() ==> final(self).wf(),
    {
        self.completed_jobs = self.completed_jobs.saturating_add(1);
        self.completions.push(
            CompletionRecord { job_id, task_id, release_time, completion_time: time },
        );
    }

    /// Records a missed deadline.
    pub fn record_deadline_miss(&mut self, job_id: JobId, task_id: TaskId, time: Nanos)
        ensures
            final(self).total_jobs == old(self).total_jobs,
            final(self).completed_jobs == old(self).completed_jobs,
            final(self).deadline_misses == arith::sat_add(old(self).deadline_misses, 1),
            final(self).completions@ == old(self).completions@,
            final(self).misses@ == old(self).misses@.push(
                MissRecord { job_id, task_id, miss_time: time },
            ),
            old(self).wf() ==> final(self).wf(),
    {
        self.deadline_misses = self.deadline_misses.saturating_add(1);
        self.misses.push(MissRecord { job_id, task_id, miss_time: time });
    }

    /// Deadline miss ratio (zero is perfect, one is all missed).
    pub fn miss_ratio(&self) -> (ratio: Ratio)
        ensures
            ratio == Ratio::of(self.deadline_misses as u128, self.total_jobs as u128),
    {
        Ratio::new(self.deadline_misses as u128, self.total_jobs as u128)
    }

    /// Schedulability: no deadline was missed.
    pub fn is_schedulable(&self) -> (yes: bool)
        ensures
            yes == (self.deadline_misses == 0),
    {
        self.deadline_misses == 0
    }

    /// Elapsed time from the earliest release to the latest completion.
    pub fn makespan(&self) -> (time: Option<Nanos>)
        ensures
            time == span(self.completions@),
    {
        let c: &Vec<CompletionRecord> = &self.completions;
        if c.len() == 0 {
            return None;
        }
        let mut first: Nanos = c[0].release_time;
        let mut last: Nanos = c[0].completion_time;
        let mut i: usize = 1;
        proof {
            assert(c@.take(1)[0] == c@[0]);
        }
        while i < c.len()
            invariant
                1 <= i <= c@.len(),
                first == first_release(c@.take(i as int)),
                last == last_completion(c@.take(i as int)),
            decreases c@.len() - i,
        {
            proof {
                assert(c@.take(i as int + 1).drop_last() =~= c@.take(i as int));
            }
            if c[i].release_time < first {
                first = c[i].release_time;
            }
            if c[i].completion_time > last {
                last = c[i].completion_time;
            }
            i = i + 1;
        }
        proof {
            assert(c@.take(i as int) =~= c@);
        }
        Some(last.saturating_sub(first))
    }

    /// Average response time across completed jobs, in nanoseconds.
    pub fn avg_response_time(&self) -> (average: Option<Ratio>)
        ensures
            match average {
                Some(ratio) => self.completions@.len() > 0 && ratio.num == total_response(
                    self.completions@,
                ) && ratio.den == self.completions@.len(),
                None => self.completions@.len() == 0,
            },
    {
        let c: &Vec<CompletionRecord> = &self.completions;
        if c.len() == 0 {
            return None;
        }
        let mut total: u128 = 0;
        let mut i: usize = 0;
        while i < c.len()
            invariant
                i <= c@.len() <= usize::MAX,
                total == total_response(c@.take(i as int)),
                total <= i * u64::MAX,
            decreases c@.len() - i,
        {
            proof {
                assert(c@.take(i as int + 1).drop_last() =~= c@.take(i as int));
                assert(i * u64::MAX + u64::MAX == (i + 1) * u64::MAX) by (nonlinear_arith);
                assert((i + 1) * u64::MAX <= u64::MAX * u64::MAX) by (nonlinear_arith)
                    requires
                        i + 1 <= u64::MAX,
                ;
            }
            total = total + c[i].completion_time.saturating_sub(c[i].release_time) as u128;
            i = i + 1;
        }
        proof {
            assert(c@.take(i as int) =~= c@);
        }
        Some(Ratio::new(total, c.len() as u128))
    }

    /// Worst (maximum) response time across completed jobs, in nanoseconds.
    pub fn worst_response_time(&self) -> (worst: Option<Nanos>)
        ensures
            worst == longest_response(self.completions@),
    {
        let c: &Vec<CompletionRecord> = &self.completions;
        let mut worst: Option<Nanos> = None;
        let mut i: usize = 0;
        while i < c.len()
            invariant
                i <= c@.len(),
                worst == longest_response(c@.take(i as int)),
            decreases c@.len() - i,
        {
            proof {
                assert(c@.take(i as int + 1).drop_last() =~= c@.take(i as int));
            }
            let here: Nanos = c[i].completion_time.saturating_sub(c[i].release_time);
            worst = match worst {
                None => Some(here),
                Some(rest) => Some(
                    if here > rest {
                        here
                    } else {
                        rest
                    },
                ),
            };
            i = i + 1;
        }
        proof {
            assert(c@.take(i as int) =~= c@);
        }
        worst
    }

    /// Per-device utilization over the observed makespan window.
    pub fn per_device_utilization(&self, busy_by_device: &[(DeviceId, Nanos)]) -> (list: Vec<
        DeviceUtilization,
    >)
        ensures
            list@ == utilizations(busy_by_device@, span(self.completions@)),
    {
        let window: Nanos = match self.makespan() {
            Some(ns) => ns,
            None => 0,
        };
        let ghost all = utilizations(busy_by_device@, span(self.completions@));
        let mut list: Vec<DeviceUtilization> = Vec::new();
        let mut i: usize = 0;
        while i < busy_by_device.len()
            invariant
                i <= busy_by_device@.len(),
                all == utilizations(busy_by_device@, span(self.completions@)),
                window == match span(self.completions@) {
                    Some(ns) => ns,
                    None => 0,
                },
                list@ == all.take(i as int),
            decreases busy_by_device@.len() - i,
        {
            let (device_id, busy_ns): (DeviceId, Nanos) = busy_by_device[i];
            list.push(
                DeviceUtilization {
                    device_id,
                    busy_ns,
                    utilization: Ratio::new(busy_ns as u128, window as u128),
                },
            );
            proof {
                assert(list@ =~= all.take(i as int + 1));
            }
            i = i + 1;
        }
        proof {
            assert(all.take(i as int) =~= all);
        }
        list
    }

    /// The timeline of completions and misses as JSON lines, ordered by time.
    pub fn to_jsonl(&self) -> (out: Result<String, serde_json::Error>)
        ensures
            out is Ok,
            out->Ok_0@ == lines(
                order::sorted(
                    completion_rows(self.completions@) + miss_rows(self.misses@),
                    row_time(),
                ),
            ),
    {
        let ghost all = completion_rows(self.completions@) + miss_rows(self.misses@);
        let mut rows: Vec<TraceRecord> = Vec::new();
        let mut i: usize = 0;
        while i < self.completions.len()
            invariant
                i <= self.completions@.len(),
                all == completion_rows(self.completions@) + miss_rows(self.misses@),
                rows@ == order::sorted(all.take(i as int), row_time()),
            decreases self.completions@.len() - i,
        {
            let c: CompletionRecord = self.completions[i];
            proof {
                assert(all.take(i as int + 1).drop_last() =~= all.take(i as int));
                order::law_sorted(all.take(i as int), row_time());
            }
            insert_row(
                &mut rows,
                TraceRecord {
                    completed: true,
                    time: c.completion_time,
                    job_id: c.job_id,
                    task_id: c.task_id,
                },
            );
            i = i + 1;
        }
        let n: usize = i;
        let mut k: usize = 0;
        while k < self.misses.len()
            invariant
                n == self.completions@.len(),
                k <= self.misses@.len(),
                all == completion_rows(self.completions@) + miss_rows(self.misses@),
                rows@ == order::sorted(all.take(n + k), row_time()),
            decreases self.misses@.len() - k,
        {
            let m: MissRecord = self.misses[k];
            proof {
                assert(all.take(n + k + 1).drop_last() =~= all.take(n + k));
                order::law_sorted(all.take(n + k), row_time());
            }
            insert_row(
                &mut rows,
                TraceRecord {
                    completed: false,
                    time: m.miss_time,
                    job_id: m.job_id,
                    task_id: m.task_id,
                },
            );
            k = k + 1;
        }
        proof {
            assert(all.take(n + k) =~= all);
        }
        let mut out: String = String::new();
        let mut r: usize = 0;
        while r < rows.len()
            invariant
                r <= rows@.len(),
                out@ == lines(rows@.take(r as int)),
            decreases rows@.len() - r,
        {
            proof {
                assert(rows@.take(r as int + 1).drop_last() =~= rows@.take(r as int));
            }
            match push_row(&mut out, &rows[r]) {
                Ok(_) => {},
                Err(e) => {
                    return Err(e);
                },
            }
            r = r + 1;
        }
        proof {
            assert(rows@.take(r as int) =~= rows@);
        }
        Ok(out)
    }
}

/// The utilizations of devices over a window, zero where it is empty.
pub open spec fn utilizations(
    busy: Seq<(DeviceId, Nanos)>,
    window: Option<Nanos>,
) -> Seq<DeviceUtilization> {
    let ns = match window {
        Some(ns) => ns,
        None => 0,
    };
    Seq::new(
        busy.len(),
        |i: int|
            DeviceUtilization {
                device_id: busy[i].0,
                busy_ns: busy[i].1,
                utilization: Ratio::of(busy[i].1 as u128, ns as u128),
            },
    )
}

/// Inserts a line behind those that are not later.
fn insert_row(rows: &mut Vec<TraceRecord>, row: TraceRecord)
    requires
        order::ascending(old(rows)@, row_time()),
    ensures
        final(rows)@ == old(rows)@.insert(order::slot(old(rows)@, row_time(), row), row),
{
    let ghost before = rows@;
    proof {
        order::lemma_slot(before, row_time(), row);
        assert(before.take(before.len() as int) =~= before);
    }
    let mut at: usize = rows.len();
    while at > 0 && rows[at - 1].time > row.time
        invariant
            before == rows@,
            at <= before.len(),
            order::slot(before, row_time(), row) == order::slot(
                before.take(at as int),
                row_time(),
                row,
            ),
        decreases at,
    {
        proof {
            assert(before.take(at as int).drop_last() =~= before.take(at as int - 1));
        }
        at = at - 1;
    }
    rows.insert(at, row);
}

/// Appends a line as a JSON object.
fn push_row(out: &mut String, row: &TraceRecord) -> (result: Result<(), serde_json::Error>)
    ensures
        result is Ok,
        final(out)@ == old(out)@ + row.json(),
{
    let ghost before = out@;
    let event: &str = if row.completed {
        "job_complete"
    } else {
        "deadline_miss"
    };
    let event_json: String = match json::to_json_string(event) {
        Ok(text) => text,
        Err(e) => {
            return Err(e);
        },
    };
    out.append("{\"event\":");
    out.append(event_json.as_str());
    out.append(",\"time\":");
    text::push_decimal(out, row.time as u128);
    out.append(",\"job_id\":");
    text::push_decimal(out, row.job_id.0 as u128);
    out.append(",\"task_id\":");
    text::push_decimal(out, row.task_id.0 as u128);
    out.append("}\n");
    proof {
        assert(out@ =~= before + row.json());
    }
    Ok(())
}

/// Computes the maximum end-to-end reaction time of a task chain from
/// completion records.
pub fn max_chain_reaction_time(chain: &TaskChain, completions: &[CompletionRecord]) -> (max:
    Option<Nanos>)
    ensures
        max == if chain.tasks@.len() == 0 {
            None
        } else {
            longest_reaction(
                order::sorted(completions@, completion_time()),
                chain.tasks@,
                completions@.len() as int,
            )
        },
{
    if chain.tasks.len() == 0 {
        return None;
    }
    let sorted: Vec<CompletionRecord> = sort_completions(completions);
    proof {
        order::law_sorted(completions@, completion_time());
    }
    let mut max: Option<Nanos> = None;
    let mut i: usize = 0;
    while i < sorted.len()
        invariant
            chain.tasks@.len() > 0,
            i <= sorted@.len(),
            max == longest_reaction(sorted@, chain.tasks@, i as int),
        decreases sorted@.len() - i,
    {
        if sorted[i].task_id == chain.tasks[0] {
            if let Some(end) = follow_chain(&sorted, &chain.tasks, sorted[i].completion_time) {
                let rt: Nanos = end.saturating_sub(sorted[i].release_time);
                max = match max {
                    Some(prev) if prev > rt => Some(prev),
                    _ => Some(rt),
                };
            }
        }
        i = i + 1;
    }
    max
}

/// Orders completions by time.
fn sort_completions(completions: &[CompletionRecord]) -> (sorted: Vec<CompletionRecord>)
    ensures
        sorted@ == order::sorted(completions@, completion_time()),
{
    let ghost key = completion_time();
    let mut sorted: Vec<CompletionRecord> = Vec::new();
    let mut i: usize = 0;
    while i < completions.len()
        invariant
            i <= completions@.len(),
            key == completion_time(),
            sorted@ == order::sorted(completions@.take(i as int), key),
        decreases completions@.len() - i,
    {
        let c: CompletionRecord = completions[i];
        let ghost before = sorted@;
        proof {
            assert(completions@.take(i as int + 1).drop_last() =~= completions@.take(i as int));
            order::law_sorted(completions@.take(i as int), key);
            order::lemma_slot(before, key, c);
            assert(before.take(before.len() as int) =~= before);
        }
        let mut at: usize = sorted.len();
        while at > 0 && sorted[at - 1].completion_time > c.completion_time
            invariant
                key == completion_time(),
                before == sorted@,
                at <= before.len(),
                order::slot(before, key, c) == order::slot(before.take(at as int), key, c),
            decreases at,
        {
            proof {
                assert(before.take(at as int).drop_last() =~= before.take(at as int - 1));
            }
            at = at - 1;
        }
        sorted.insert(at, c);
        i = i + 1;
    }
    proof {
        assert(completions@.take(i as int) =~= completions@);
    }
    sorted
}

/// Follows data through the tasks of a chain behind the first one.
fn follow_chain(completions: &Vec<CompletionRecord>, tasks: &Vec<TaskId>, time: Nanos) -> (end:
    Option<Nanos>)
    requires
        tasks@.len() > 0,
    ensures
        end == chain_end(completions@, tasks@.skip(1), time),
{
    let ghost later = tasks@.skip(1);
    let mut t: Nanos = time;
    let mut k: usize = 1;
    while k < tasks.len()
        invariant
            1 <= k <= tasks@.len(),
            later == tasks@.skip(1),
            chain_end(completions@, later.take(k - 1), time) == Some(t),
        decreases tasks@.len() - k,
    {
        proof {
            assert(later.take(k as int).drop_last() =~= later.take(k - 1));
            assert(later.take(k as int).last() == tasks@[k as int]);
        }
        match find_follower(completions, tasks[k], t) {
            Some(next) => {
                t = next;
            },
            None => {
                proof {
                    lemma_broken_chain(completions@, later, time, k as int);
                }
                return None;
            },
        }
        k = k + 1;
    }
    proof {
        assert(later.take(k - 1) =~= later);
    }
    Some(t)
}

/// Finds the first completion that can follow in a chain.
fn find_follower(completions: &Vec<CompletionRecord>, task_id: TaskId, time: Nanos) -> (next:
    Option<Nanos>)
    ensures
        next == match search::first_where(completions@, follows(task_id, time)) {
            Some(i) => Some(completions@[i].completion_time),
            None => None,
        },
{
    let mut i: usize = 0;
    while i < completions.len()
        invariant
            i <= completions@.len(),
            forall|j: int| 0 <= j < i ==> !follows(task_id, time)(#[trigger] completions@[j]),
        decreases completions@.len() - i,
    {
        if completions[i].task_id == task_id && completions[i].completion_time >= time {
            proof {
                search::lemma_found(completions@, follows(task_id, time), i as int);
            }
            return Some(completions[i].completion_time);
        }
        i = i + 1;
    }
    proof {
        search::lemma_not_found(completions@, follows(task_id, time));
    }
    None
}

/// A chain that breaks off early has no end.
proof fn lemma_broken_chain(
    completions: Seq<CompletionRecord>,
    tasks: Seq<TaskId>,
    time: Nanos,
    n: int,
)
    requires
        0 <= n <= tasks.len(),
        chain_end(completions, tasks.take(n), time) is None,
    ensures
        chain_end(completions, tasks, time) is None,
    decreases tasks.len() - n,
{
    if n == tasks.len() {
        assert(tasks.take(n) =~= tasks);
    } else {
        assert(tasks.take(n + 1).drop_last() =~= tasks.take(n));
        lemma_broken_chain(completions, tasks, time, n + 1);
    }
}

/// The window from first release to last completion covers every completed
/// job.
pub proof fn law_makespan_covers_all(completions: Seq<CompletionRecord>, i: int)
    requires
        0 <= i < completions.len(),
    ensures
        first_release(completions) <= completions[i].release_time,
        completions[i].completion_time <= last_completion(completions),
        completions[i].response() <= span(completions)->0,
    decreases completions.len(),
{
    if completions.len() > 1 {
        let rest = completions.drop_last();
        if i < rest.len() {
            law_makespan_covers_all(rest, i);
            assert(rest[i] == completions[i]);
        }
    }
}

/// No response time exceeds the longest one, and some job has it.
pub proof fn law_longest_response(completions: Seq<CompletionRecord>)
    ensures
        completions.len() == 0 <==> longest_response(completions) is None,
        longest_response(completions) matches Some(ns) ==> {
            &&& forall|i: int| 0 <= i < completions.len() ==> (
            #[trigger] completions[i]).response() <= ns
            &&& exists|i: int|
                0 <= i < completions.len() && (#[trigger] completions[i]).response() == ns
        },
    decreases completions.len(),
{
    if completions.len() > 0 {
        let rest = completions.drop_last();
        let n = completions.len() - 1;
        law_longest_response(rest);
        assert forall|i: int| 0 <= i < rest.len() implies rest[i]
            == #[trigger] completions[i] by {}
        let ns = longest_response(completions)->0;
        if completions.last().response() == ns {
            assert(completions[n].response() == ns);
        } else {
            let w = choose|w: int| 0 <= w < rest.len() && (#[trigger] rest[w]).response() == ns;
            assert(completions[w].response() == ns);
        }
    }
}

/// The average response time never exceeds the worst one.
pub proof fn law_average_is_below_worst(completions: Seq<CompletionRecord>)
    requires
        completions.len() > 0,
    ensures
        total_response(completions) <= completions.len() * longest_response(completions)->0,
    decreases completions.len(),
{
    let rest = completions.drop_last();
    let ns = longest_response(completions)->0 as int;
    let n = completions.len() as int;
    if rest.len() > 0 {
        law_average_is_below_worst(rest);
        let prev = longest_response(rest)->0 as int;
        assert((n - 1) * prev + ns <= n * ns) by (nonlinear_arith)
            requires
                prev <= ns,
                n >= 1,
        ;
    } else {
        assert(total_response(rest) == 0);
        assert(n * ns == ns) by (nonlinear_arith)
            requires
                n == 1,
        ;
    }
}

/// A trace has one line for every completion and every miss, in the order of
/// time.
pub proof fn law_trace_is_ordered(m: &MetricsCollector)
    ensures
        ({
            let rows = completion_rows(m.completions@) + miss_rows(m.misses@);
            let trace = order::sorted(rows, row_time());
            &&& trace.len() == m.completions@.len() + m.misses@.len()
            &&& trace.to_multiset() == rows.to_multiset()
            &&& forall|i: int, j: int|
                0 <= i < j < trace.len() ==> (#[trigger] trace[i]).time <= (
                #[trigger] trace[j]).time
        }),
{
    let rows = completion_rows(m.completions@) + miss_rows(m.misses@);
    order::law_sorted(rows, row_time());
    let trace = order::sorted(rows, row_time());
    assert forall|i: int, j: int| 0 <= i < j < trace.len() implies (#[trigger] trace[i]).time <= (
    #[trigger] trace[j]).time by {
        assert(row_time()(trace[i]) <= row_time()(trace[j]));
    }
}

/// Whether records lead through the tasks of a chain from a time on: one
/// record of each task, none completed before the one ahead of it.
pub open spec fn leads(
    completions: Seq<CompletionRecord>,
    tasks: Seq<TaskId>,
    time: Nanos,
    path: Seq<CompletionRecord>,
) -> bool {
    &&& path.len() == tasks.len()
    &&& forall|i: int|
        0 <= i < path.len() ==> completions.contains(#[trigger] path[i]) && path[i].task_id
            == tasks[i] && path[i].completion_time >= time
    &&& forall|i: int, j: int|
        0 <= i < j < path.len() ==> (#[trigger] path[i]).completion_time <= (
        #[trigger] path[j]).completion_time
}

/// Whether records lead through all tasks of a chain.
pub open spec fn is_path(
    completions: Seq<CompletionRecord>,
    tasks: Seq<TaskId>,
    path: Seq<CompletionRecord>,
) -> bool {
    leads(completions, tasks, 0, path)
}

/// Whether no path from the same start through a chain ends earlier.
pub open spec fn is_earliest(
    completions: Seq<CompletionRecord>,
    tasks: Seq<TaskId>,
    path: Seq<CompletionRecord>,
) -> bool {
    &&& is_path(completions, tasks, path)
    &&& forall|other: Seq<CompletionRecord>| #[trigger]
        is_path(completions, tasks, other) && other[0] == path[0]
            ==> path.last().completion_time <= other.last().completion_time
}

/// Whether a reaction time is that of a start: the time from its release to
/// the earliest completion of the last task on a path from there.
#[verifier::opaque]
pub open spec fn is_reaction(
    completions: Seq<CompletionRecord>,
    tasks: Seq<TaskId>,
    start: CompletionRecord,
    rt: Nanos,
) -> bool {
    exists|path: Seq<CompletionRecord>| #[trigger]
        is_earliest(completions, tasks, path) && path[0] == start && rt == arith::sat_sub(
            path.last().completion_time,
            start.release_time,
        )
}

/// When a path ends that begins at a time.
spec fn end_after(time: Nanos, path: Seq<CompletionRecord>) -> Nanos {
    if path.len() == 0 {
        time
    } else {
        path.last().completion_time
    }
}

proof fn lemma_drop_last_leads(
    c: Seq<CompletionRecord>,
    tasks: Seq<TaskId>,
    time: Nanos,
    path: Seq<CompletionRecord>,
)
    requires
        tasks.len() > 0,
        leads(c, tasks, time, path),
    ensures
        leads(c, tasks.drop_last(), time, path.drop_last()),
        end_after(time, path.drop_last()) <= path.last().completion_time,
{
    let rest = path.drop_last();
    assert forall|i: int| 0 <= i < rest.len() implies c.contains(#[trigger] rest[i])
        && rest[i].task_id == tasks.drop_last()[i] && rest[i].completion_time >= time by {
        assert(rest[i] == path[i]);
    }
    assert forall|i: int, j: int| 0 <= i < j < rest.len() implies (
    #[trigger] rest[i]).completion_time <= (#[trigger] rest[j]).completion_time by {
        assert(rest[i] == path[i] && rest[j] == path[j]);
    }
    let n = path.len() - 1;
    assert(path[n].completion_time >= time);
    if rest.len() > 0 {
        assert(rest.last() == path[n - 1]);
    }
}

/// In ordered records a chain is followed to its earliest end.
proof fn lemma_chain_end(c: Seq<CompletionRecord>, tasks: Seq<TaskId>, time: Nanos)
    requires
        order::ascending(c, completion_time()),
    ensures
        match chain_end(c, tasks, time) {
            None => forall|path: Seq<CompletionRecord>| !#[trigger] leads(c, tasks, time, path),
            Some(t) => {
                &&& exists|path: Seq<CompletionRecord>| #[trigger]
                    leads(c, tasks, time, path) && end_after(time, path) == t
                &&& forall|path: Seq<CompletionRecord>| #[trigger]
                    leads(c, tasks, time, path) ==> t <= end_after(time, path)
            },
        },
    decreases tasks.len(),
{
    if tasks.len() == 0 {
        assert(leads(c, tasks, time, Seq::empty()));
    } else {
        let rest = tasks.drop_last();
        lemma_chain_end(c, rest, time);
        match chain_end(c, rest, time) {
            None => {
                assert forall|path: Seq<CompletionRecord>| !#[trigger] leads(
                    c,
                    tasks,
                    time,
                    path,
                ) by {
                    if leads(c, tasks, time, path) {
                        lemma_drop_last_leads(c, tasks, time, path);
                    }
                }
            },
            Some(t) => {
                let cond = follows(tasks.last(), t);
                search::law_first_where(c, cond);
                assert forall|path: Seq<CompletionRecord>| #[trigger]
                    leads(c, tasks, time, path) implies (search::first_where(c, cond) matches Some(
                    i,
                ) && c[i].completion_time <= path.last().completion_time) by {
                    lemma_drop_last_leads(c, tasks, time, path);
                    let n = path.len() - 1;
                    assert(c.contains(path[n]) && path[n].task_id == tasks[n]);
                    let j = choose|j: int| 0 <= j < c.len() && c[j] == path[n];
                    assert(cond(c[j]));
                    let i = search::first_where(c, cond)->0;
                    if i < j {
                        assert(completion_time()(c[i]) <= completion_time()(c[j]));
                    }
                }
                if let Some(i) = search::first_where(c, cond) {
                    let ahead = choose|path: Seq<CompletionRecord>| #[trigger]
                        leads(c, rest, time, path) && end_after(time, path) == t;
                    let path = ahead.push(c[i]);
                    assert(cond(c[i]));
                    assert(t >= time) by {
                        if ahead.len() > 0 {
                            assert(ahead[ahead.len() - 1].completion_time >= time);
                        }
                    }
                    assert forall|k: int| 0 <= k < path.len() implies c.contains(
                        #[trigger] path[k],
                    ) && path[k].task_id == tasks[k] && path[k].completion_time >= time by {
                        if k < ahead.len() {
                            assert(path[k] == ahead[k]);
                            assert(rest[k] == tasks[k]);
                        }
                    }
                    assert forall|k: int, l: int| 0 <= k < l < path.len() implies (
                    #[trigger] path[k]).completion_time <= (#[trigger] path[l]).completion_time by {
                        assert(path[k] == ahead[k]);
                        if l < ahead.len() {
                            assert(path[l] == ahead[l]);
                        } else if k < ahead.len() - 1 {
                            assert(ahead[k].completion_time <= ahead[ahead.len()
                                - 1].completion_time);
                        }
                    }
                    assert(leads(c, tasks, time, path));
                }
            },
        }
    }
}

/// In ordered records the reaction from a start is the one that its earliest
/// path gives.
proof fn lemma_reaction_from(c: Seq<CompletionRecord>, tasks: Seq<TaskId>, start: CompletionRecord)
    requires
        order::ascending(c, completion_time()),
        tasks.len() > 0,
        c.contains(start),
    ensures
        match reaction_from(c, tasks, start) {
            None => forall|path: Seq<CompletionRecord>| #[trigger]
                is_path(c, tasks, path) ==> path[0] != start,
            Some(rt) => is_reaction(c, tasks, start, rt),
        },
{
    let later = tasks.skip(1);
    let time = start.completion_time;
    lemma_chain_end(c, later, time);
    assert forall|path: Seq<CompletionRecord>| #[trigger]
        is_path(c, tasks, path) && path[0] == start implies start.task_id == tasks[0] && leads(
        c,
        later,
        time,
        path.skip(1),
    ) && end_after(time, path.skip(1)) == path.last().completion_time by {
        let rest = path.skip(1);
        assert forall|i: int| 0 <= i < rest.len() implies c.contains(#[trigger] rest[i])
            && rest[i].task_id == later[i] && rest[i].completion_time >= time by {
            assert(rest[i] == path[i + 1]);
            assert(path[0].completion_time <= path[i + 1].completion_time);
        }
        assert forall|i: int, j: int| 0 <= i < j < rest.len() implies (
        #[trigger] rest[i]).completion_time <= (#[trigger] rest[j]).completion_time by {
            assert(rest[i] == path[i + 1] && rest[j] == path[j + 1]);
        }
        assert(path[0].task_id == tasks[0]);
    }
    if let Some(rt) = reaction_from(c, tasks, start) {
        let end = chain_end(c, later, time)->0;
        let rest = choose|path: Seq<CompletionRecord>| #[trigger]
            leads(c, later, time, path) && end_after(time, path) == end;
        let path = seq![start] + rest;
        assert forall|i: int| 0 <= i < path.len() implies c.contains(#[trigger] path[i])
            && path[i].task_id == tasks[i] && path[i].completion_time >= 0 by {
            if i > 0 {
                assert(path[i] == rest[i - 1]);
                assert(later[i - 1] == tasks[i]);
            }
        }
        assert forall|i: int, j: int| 0 <= i < j < path.len() implies (
        #[trigger] path[i]).completion_time <= (#[trigger] path[j]).completion_time by {
            assert(path[j] == rest[j - 1]);
            if i > 0 {
                assert(path[i] == rest[i - 1]);
            }
        }
        assert(is_path(c, tasks, path));
        assert(path.last().completion_time == end) by {
            if rest.len() > 0 {
                assert(path.last() == rest.last());
            }
        }
        assert(is_earliest(c, tasks, path));
        reveal(is_reaction);
    }
}

/// Among ordered records the longest reaction is the greatest one of all
/// starts.
proof fn lemma_longest(c: Seq<CompletionRecord>, tasks: Seq<TaskId>, n: int)
    requires
        order::ascending(c, completion_time()),
        tasks.len() > 0,
        0 <= n <= c.len(),
    ensures
        match longest_reaction(c, tasks, n) {
            None => forall|i: int|
                0 <= i < n ==> reaction_from(c, tasks, #[trigger] c[i]) is None,
            Some(r) => {
                &&& exists|i: int| 0 <= i < n && reaction_from(c, tasks, #[trigger] c[i]) == Some(r)
                &&& forall|i: int|
                    0 <= i < n ==> (reaction_from(c, tasks, #[trigger] c[i]) matches Some(rt)
                        ==> rt <= r)
            },
        },
    decreases n,
{
    if n > 0 {
        lemma_longest(c, tasks, n - 1);
        let last = c[n - 1];
        if let Some(r) = longest_reaction(c, tasks, n - 1) {
            let i = choose|i: int|
                0 <= i < n - 1 && reaction_from(c, tasks, #[trigger] c[i]) == Some(r);
            assert(reaction_from(c, tasks, c[i]) == Some(r));
        }
        assert(reaction_from(c, tasks, last) == reaction_from(c, tasks, c[n - 1]));
    }
}

/// Ordered records give the greatest reaction time of all.
proof fn lemma_longest_of_ordered(c: Seq<CompletionRecord>, tasks: Seq<TaskId>)
    requires
        order::ascending(c, completion_time()),
        tasks.len() > 0,
    ensures
        match longest_reaction(c, tasks, c.len() as int) {
            None => forall|path: Seq<CompletionRecord>| !#[trigger] is_path(c, tasks, path),
            Some(r) => {
                &&& exists|start: CompletionRecord| #[trigger] is_reaction(c, tasks, start, r)
                &&& forall|path: Seq<CompletionRecord>| #[trigger]
                    is_path(c, tasks, path) ==> exists|rt: Nanos|
                        rt <= r && #[trigger] is_reaction(c, tasks, path[0], rt)
            },
        },
{
    lemma_longest(c, tasks, c.len() as int);
    assert forall|path: Seq<CompletionRecord>| #[trigger]
        is_path(c, tasks, path) implies (longest_reaction(c, tasks, c.len() as int) matches Some(
        r,
    ) && exists|rt: Nanos| rt <= r && #[trigger] is_reaction(c, tasks, path[0], rt)) by {
        assert(c.contains(path[0]));
        let i = choose|i: int| 0 <= i < c.len() && c[i] == path[0];
        lemma_reaction_from(c, tasks, c[i]);
        let rt = reaction_from(c, tasks, c[i])->0;
        assert(is_reaction(c, tasks, path[0], rt));
    }
    if let Some(r) = longest_reaction(c, tasks, c.len() as int) {
        let i = choose|i: int|
            0 <= i < c.len() && reaction_from(c, tasks, #[trigger] c[i]) == Some(r);
        assert(c.contains(c[i]));
        lemma_reaction_from(c, tasks, c[i]);
    }
}

/// The longest reaction time of a chain is the greatest, over all records of
/// its first task from which a path leads through the chain, of the time from
/// the release to the earliest end of such a path. There is none where no path
/// leads through the chain.
pub proof fn law_longest_reaction(completions: Seq<CompletionRecord>, tasks: Seq<TaskId>)
    requires
        tasks.len() > 0,
    ensures
        match longest_reaction(
            order::sorted(completions, completion_time()),
            tasks,
            completions.len() as int,
        ) {
            None => forall|path: Seq<CompletionRecord>| !#[trigger]
                is_path(completions, tasks, path),
            Some(r) => {
                &&& exists|start: CompletionRecord| #[trigger]
                    is_reaction(completions, tasks, start, r)
                &&& forall|path: Seq<CompletionRecord>| #[trigger]
                    is_path(completions, tasks, path) ==> exists|rt: Nanos|
                        rt <= r && #[trigger] is_reaction(completions, tasks, path[0], rt)
                &&& forall|start: CompletionRecord, rt: Nanos| #[trigger]
                    is_reaction(completions, tasks, start, rt) ==> rt <= r
            },
        },
{
    let c = order::sorted(completions, completion_time());
    order::law_sorted(completions, completion_time());
    lemma_longest_of_ordered(c, tasks);
    lemma_same_paths(completions, c, tasks);
    if let Some(r) = longest_reaction(c, tasks, c.len() as int) {
        let start = choose|start: CompletionRecord| #[trigger] is_reaction(c, tasks, start, r);
        assert(is_reaction(completions, tasks, start, r));
        assert forall|path: Seq<CompletionRecord>| #[trigger]
            is_path(completions, tasks, path) implies exists|rt: Nanos|
            rt <= r && #[trigger] is_reaction(completions, tasks, path[0], rt) by {
            assert(is_path(c, tasks, path));
            let rt = choose|rt: Nanos| rt <= r && #[trigger] is_reaction(c, tasks, path[0], rt);
            assert(is_reaction(completions, tasks, path[0], rt));
        }
        assert forall|start: CompletionRecord, rt: Nanos| #[trigger]
            is_reaction(completions, tasks, start, rt) implies rt <= r by {
            let path = lemma_reaction_path(completions, tasks, start, rt);
            let other = choose|q: Nanos|
                q <= r && #[trigger] is_reaction(completions, tasks, path[0], q);
            lemma_one_reaction(completions, tasks, start, rt, other);
        }
    }
}

proof fn lemma_reaction_path(
    c: Seq<CompletionRecord>,
    tasks: Seq<TaskId>,
    start: CompletionRecord,
    rt: Nanos,
) -> (path: Seq<CompletionRecord>)
    requires
        is_reaction(c, tasks, start, rt),
    ensures
        is_path(c, tasks, path),
        path[0] == start,
{
    reveal(is_reaction);
    choose|path: Seq<CompletionRecord>| #[trigger]
        is_earliest(c, tasks, path) && path[0] == start && rt == arith::sat_sub(
            path.last().completion_time,
            start.release_time,
        )
}

proof fn lemma_one_reaction(
    c: Seq<CompletionRecord>,
    tasks: Seq<TaskId>,
    start: CompletionRecord,
    a: Nanos,
    b: Nanos,
)
    requires
        is_reaction(c, tasks, start, a),
        is_reaction(c, tasks, start, b),
    ensures
        a == b,
{
    reveal(is_reaction);
    let p = choose|path: Seq<CompletionRecord>| #[trigger]
        is_earliest(c, tasks, path) && path[0] == start && a == arith::sat_sub(
            path.last().completion_time,
            start.release_time,
        );
    let q = choose|path: Seq<CompletionRecord>| #[trigger]
        is_earliest(c, tasks, path) && path[0] == start && b == arith::sat_sub(
            path.last().completion_time,
            start.release_time,
        );
    assert(is_path(c, tasks, p) && is_path(c, tasks, q));
}

proof fn lemma_path_elsewhere(
    a: Seq<CompletionRecord>,
    b: Seq<CompletionRecord>,
    tasks: Seq<TaskId>,
    path: Seq<CompletionRecord>,
)
    requires
        a.to_multiset() == b.to_multiset(),
        is_path(a, tasks, path),
    ensures
        is_path(b, tasks, path),
{
    broadcast use vstd::seq_lib::group_to_multiset_ensures;

    assert forall|i: int| 0 <= i < path.len() implies b.contains(#[trigger] path[i]) by {
        assert(a.contains(path[i]));
        assert(a.to_multiset().count(path[i]) > 0);
        assert(b.to_multiset().count(path[i]) > 0);
    }
}

proof fn lemma_reaction_elsewhere(
    a: Seq<CompletionRecord>,
    b: Seq<CompletionRecord>,
    tasks: Seq<TaskId>,
    start: CompletionRecord,
    rt: Nanos,
)
    requires
        a.to_multiset() == b.to_multiset(),
        is_reaction(a, tasks, start, rt),
    ensures
        is_reaction(b, tasks, start, rt),
{
    reveal(is_reaction);
    let path = choose|path: Seq<CompletionRecord>| #[trigger]
        is_earliest(a, tasks, path) && path[0] == start && rt == arith::sat_sub(
            path.last().completion_time,
            start.release_time,
        );
    lemma_path_elsewhere(a, b, tasks, path);
    assert forall|other: Seq<CompletionRecord>| #[trigger]
        is_path(b, tasks, other) && other[0] == path[0] implies path.last().completion_time
        <= other.last().completion_time by {
        lemma_path_elsewhere(b, a, tasks, other);
    }
    assert(is_earliest(b, tasks, path));
}

proof fn lemma_same_paths(
    a: Seq<CompletionRecord>,
    b: Seq<CompletionRecord>,
    tasks: Seq<TaskId>,
)
    requires
        a.to_multiset() == b.to_multiset(),
    ensures
        forall|path: Seq<CompletionRecord>|
            #![trigger is_path(a, tasks, path)]
            #![trigger is_path(b, tasks, path)]
            is_path(a, tasks, path) <==> is_path(b, tasks, path),
        forall|start: CompletionRecord, rt: Nanos|
            #![trigger is_reaction(a, tasks, start, rt)]
            #![trigger is_reaction(b, tasks, start, rt)]
            is_reaction(a, tasks, start, rt) <==> is_reaction(b, tasks, start, rt),
{
    assert forall|path: Seq<CompletionRecord>|
        #![trigger is_path(a, tasks, path)]
        #![trigger is_path(b, tasks, path)]
        is_path(a, tasks, path) <==> is_path(b, tasks, path) by {
        if is_path(a, tasks, path) {
            lemma_path_elsewhere(a, b, tasks, path);
        }
        if is_path(b, tasks, path) {
            lemma_path_elsewhere(b, a, tasks, path);
        }
    }
    assert forall|start: CompletionRecord, rt: Nanos|
        #![trigger is_reaction(a, tasks, start, rt)]
        #![trigger is_reaction(b, tasks, start, rt)]
        is_reaction(a, tasks, start, rt) <==> is_reaction(b, tasks, start, rt) by {
        if is_reaction(a, tasks, start, rt) {
            lemma_reaction_elsewhere(a, b, tasks, start, rt);
        }
        if is_reaction(b, tasks, start, rt) {
            lemma_reaction_elsewhere(b, a, tasks, start, rt);
        }
    }
}

/// The order in which completions are listed has no part in the longest
/// reaction time.
pub proof fn law_reaction_ignores_order(
    a: Seq<CompletionRecord>,
    b: Seq<CompletionRecord>,
    tasks: Seq<TaskId>,
)
    requires
        tasks.len() > 0,
        a.to_multiset() == b.to_multiset(),
    ensures
        longest_reaction(order::sorted(a, completion_time()), tasks, a.len() as int)
            == longest_reaction(order::sorted(b, completion_time()), tasks, b.len() as int),
{
    law_longest_reaction(a, tasks);
    law_longest_reaction(b, tasks);
    lemma_same_paths(a, b, tasks);
    let x = longest_reaction(order::sorted(a, completion_time()), tasks, a.len() as int);
    let y = longest_reaction(order::sorted(b, completion_time()), tasks, b.len() as int);
    if let Some(r) = x {
        let start = choose|start: CompletionRecord| #[trigger] is_reaction(a, tasks, start, r);
        assert(is_reaction(b, tasks, start, r));
        let path = lemma_reaction_path(b, tasks, start, r);
    }
    if let Some(r) = y {
        let start = choose|start: CompletionRecord| #[trigger] is_reaction(b, tasks, start, r);
        assert(is_reaction(a, tasks, start, r));
        let path = lemma_reaction_path(a, tasks, start, r);
    }
}

} // verus!

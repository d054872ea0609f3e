//! Parameter sweeps: ranges as they are written down, and the experiments they
//! span.

use crate::analysis;
use crate::analysis::{AnalysisMetadataSnapshot, AnalysisMode};
use crate::catalog;
use crate::catalog::SchedulerKind;
use crate::engine::SimResult;
use crate::json;
use crate::replay;
use crate::replay::{WorkloadInput, WorkloadMetadataSnapshot};
use crate::words;
use crate::words::NumberError;
use vstd::prelude::*;
use vstd::string::*;

verus! {

/// The numbers from one to another, both ends among them.
pub open spec fn from_to(start: u64, end: u64) -> Seq<u64> {
    if start > end {
        Seq::empty()
    } else {
        Seq::new((end - start + 1) as nat, |i: int| (start + i) as u64)
    }
}

/// The numbers that a range `start:end`, or a single number, stands for.
pub open spec fn range_values(s: Seq<char>) -> Result<Seq<u64>, Seq<char>> {
    let parts = words::pieces(s, ':');
    if parts.len() == 2 {
        match (
            words::number_value(parts[0], u64::MAX),
            words::number_value(parts[1], u64::MAX),
        ) {
            (Ok(start), Ok(end)) => Ok(from_to(start, end)),
            (Err(e), _) => Err(e.text()),
            (_, Err(e)) => Err(e.text()),
        }
    } else if parts.len() == 1 {
        match words::number_value(parts[0], u64::MAX) {
            Ok(n) => Ok(seq![n]),
            Err(e) => Err(e.text()),
        }
    } else {
        Err("expected format: start:end or single value"@)
    }
}

/// Reads a range `start:end`, or a single number.
pub fn parse_range_u64(s: &str) -> (numbers: Result<Vec<u64>, String>)
    ensures
        match (numbers, range_values(s@)) {
            (Ok(list), Ok(known)) => list@ == known,
            (Err(e), Err(text)) => e@ == text,
            _ => false,
        },
{
    let parts: Vec<&str> = words::split(s, ':');
    let ghost all = words::pieces(s@, ':');
    assert(all.len() == parts@.len());
    if parts.len() == 2 {
        assert(all[0] == parts@[0]@ && all[1] == parts@[1]@);
        let start: u64 = match words::read_number(parts[0], u64::MAX) {
            Ok(n) => n,
            Err(e) => {
                return Err(String::from_str(e.describe()));
            },
        };
        let end: u64 = match words::read_number(parts[1], u64::MAX) {
            Ok(n) => n,
            Err(e) => {
                return Err(String::from_str(e.describe()));
            },
        };
        Ok(list_numbers(start, end))
    } else if parts.len() == 1 {
        assert(all[0] == parts@[0]@);
        match words::read_number(parts[0], u64::MAX) {
            Ok(n) => {
                let mut list: Vec<u64> = Vec::new();
                list.push(n);
                assert(list@ =~= seq![n]);
                Ok(list)
            },
            Err(e) => Err(String::from_str(e.describe())),
        }
    } else {
        Err(String::from_str("expected format: start:end or single value"))
    }
}

/// Lists the numbers from one to another.
fn list_numbers(start: u64, end: u64) -> (list: Vec<u64>)
    ensures
        list@ == from_to(start, end),
{
    let mut list: Vec<u64> = Vec::new();
    if start > end {
        assert(list@ =~= from_to(start, end));
        return list;
    }
    let ghost all = from_to(start, end);
    let mut n: u64 = start;
    proof {
        assert(all.take(0) =~= Seq::empty());
    }
    while n < end
        invariant
            start <= n <= end,
            all == from_to(start, end),
            all.len() == end - start + 1,
            list@ == all.take(n - start),
        decreases end - n,
    {
        list.push(n);
        proof {
            assert(list@ =~= all.take(n - start + 1));
        }
        n = n + 1;
    }
    list.push(end);
    proof {
        assert(list@ =~= all);
    }
    list
}

/// The numbers that pieces stand for, or the error of the first one that
/// stands for none.
pub open spec fn count_values(parts: Seq<Seq<char>>) -> Result<Seq<usize>, NumberError>
    decreases parts.len(),
{
    if parts.len() == 0 {
        Ok(Seq::empty())
    } else {
        match count_values(parts.drop_last()) {
            Err(e) => Err(e),
            Ok(list) => match words::number_value(
                words::trimmed(parts.last()),
                usize::MAX as u64,
            ) {
                Ok(n) => Ok(list.push(n as usize)),
                Err(e) => Err(e),
            },
        }
    }
}

/// An error among the first pieces is the first one of all.
proof fn lemma_count_values(parts: Seq<Seq<char>>, n: int)
    requires
        0 <= n <= parts.len(),
        count_values(parts.take(n)) is Err,
    ensures
        count_values(parts) == count_values(parts.take(n)),
    decreases parts.len() - n,
{
    if n == parts.len() {
        assert(parts.take(n) =~= parts);
    } else {
        assert(parts.take(n + 1).drop_last() =~= parts.take(n));
        lemma_count_values(parts, n + 1);
    }
}

/// Reads a list of task counts that is separated by commas.
pub fn parse_task_counts(s: &str) -> (counts: Result<Vec<usize>, NumberError>)
    ensures
        match (counts, count_values(words::pieces(s@, ','))) {
            (Ok(list), Ok(known)) => list@ == known,
            (Err(e), Err(x)) => e == x,
            _ => false,
        },
{
    let parts: Vec<&str> = words::split(s, ',');
    let ghost all = words::pieces(s@, ',');
    let mut list: Vec<usize> = Vec::new();
    let mut i: usize = 0;
    proof {
        assert(all.take(0) =~= Seq::empty());
        assert(list@ =~= Seq::empty());
    }
    while i < parts.len()
        invariant
            i <= parts@.len(),
            all == words::texts(parts@),
            all == words::pieces(s@, ','),
            count_values(all.take(i as int)) == Ok::<Seq<usize>, NumberError>(list@),
        decreases parts@.len() - i,
    {
        proof {
            assert(all.take(i as int + 1).drop_last() =~= all.take(i as int));
            assert(all.take(i as int + 1).last() == parts@[i as int]@);
        }
        match words::read_number(words::trim(parts[i]), usize::MAX as u64) {
            Ok(n) => {
                list.push(n as usize);
            },
            Err(e) => {
                proof {
                    lemma_count_values(all, i as int + 1);
                }
                return Err(e);
            },
        }
        i = i + 1;
    }
    proof {
        assert(all.take(i as int) =~= all);
    }
    Ok(list)
}

/// One experiment of a sweep. The utilization is given by its place in the
/// list of utilizations.
#[derive(Debug, Clone, Copy, PartialEq, Eq, Structural)]
pub struct SweepPoint {
    pub utilization: usize,
    pub task_count: usize,
    pub seed: u64,
    pub scheduler: SchedulerKind,
    pub analysis_mode: AnalysisMode,
}

/// Experiments over analysis modes.
pub open spec fn over_modes(point: SweepPoint, modes: Seq<AnalysisMode>) -> Seq<SweepPoint> {
    Seq::new(modes.len(), |i: int| SweepPoint { analysis_mode: modes[i], ..point })
}

/// Experiments over schedulers, for each over analysis modes.
pub open spec fn over_schedulers(
    point: SweepPoint,
    schedulers: Seq<SchedulerKind>,
    modes: Seq<AnalysisMode>,
) -> Seq<SweepPoint>
    decreases schedulers.len(),
{
    if schedulers.len() == 0 {
        Seq::empty()
    } else {
        over_schedulers(point, schedulers.drop_last(), modes) + over_modes(
            SweepPoint { scheduler: schedulers.last(), ..point },
            modes,
        )
    }
}

/// Experiments over seeds, for each over schedulers and analysis modes.
pub open spec fn over_seeds(
    point: SweepPoint,
    seeds: Seq<u64>,
    schedulers: Seq<SchedulerKind>,
    modes: Seq<AnalysisMode>,
) -> Seq<SweepPoint>
    decreases seeds.len(),
{
    if seeds.len() == 0 {
        Seq::empty()
    } else {
        over_seeds(point, seeds.drop_last(), schedulers, modes) + over_schedulers(
            SweepPoint { seed: seeds.last(), ..point },
            schedulers,
            modes,
        )
    }
}

/// Experiments over task counts, for each over seeds, schedulers and analysis
/// modes.
pub open spec fn over_counts(
    point: SweepPoint,
    counts: Seq<usize>,
    seeds: Seq<u64>,
    schedulers: Seq<SchedulerKind>,
    modes: Seq<AnalysisMode>,
) -> Seq<SweepPoint>
    decreases counts.len(),
{
    if counts.len() == 0 {
        Seq::empty()
    } else {
        over_counts(point, counts.drop_last(), seeds, schedulers, modes) + over_seeds(
            SweepPoint { task_count: counts.last(), ..point },
            seeds,
            schedulers,
            modes,
        )
    }
}

/// Experiments over the first `n` utilizations, for each over task counts,
/// seeds, schedulers and analysis modes.
pub open spec fn over_utilizations(
    n: nat,
    counts: Seq<usize>,
    seeds: Seq<u64>,
    schedulers: Seq<SchedulerKind>,
    modes: Seq<AnalysisMode>,
) -> Seq<SweepPoint>
    decreases n,
{
    if n == 0 {
        Seq::empty()
    } else {
        over_utilizations((n - 1) as nat, counts, seeds, schedulers, modes) + over_counts(
            start_point((n - 1) as usize),
            counts,
            seeds,
            schedulers,
            modes,
        )
    }
}

/// An experiment whose utilization alone is chosen.
pub open spec fn start_point(utilization: usize) -> SweepPoint {
    SweepPoint {
        utilization,
        task_count: 0,
        seed: 0,
        scheduler: SchedulerKind::Fp,
        analysis_mode: AnalysisMode::NoAnalysis,
    }
}

/// Lists every combination of utilization, task count, seed, scheduler and
/// analysis mode, the last of these varying fastest.
pub fn sweep_points(
    utilizations: usize,
    counts: &Vec<usize>,
    seeds: &Vec<u64>,
    schedulers: &Vec<SchedulerKind>,
    modes: &Vec<AnalysisMode>,
) -> (points: Vec<SweepPoint>)
    ensures
        points@ == over_utilizations(
            utilizations as nat,
            counts@,
            seeds@,
            schedulers@,
            modes@,
        ),
{
    let mut points: Vec<SweepPoint> = Vec::new();
    let mut u: usize = 0;
    while u < utilizations
        invariant
            u <= utilizations,
            points@ == over_utilizations(u as nat, counts@, seeds@, schedulers@, modes@),
        decreases utilizations - u,
    {
        let point = SweepPoint {
            utilization: u,
            task_count: 0,
            seed: 0,
            scheduler: SchedulerKind::Fp,
            analysis_mode: AnalysisMode::NoAnalysis,
        };
        push_counts(&mut points, point, counts, seeds, schedulers, modes);
        u = u + 1;
    }
    points
}

fn push_counts(
    points: &mut Vec<SweepPoint>,
    point: SweepPoint,
    counts: &Vec<usize>,
    seeds: &Vec<u64>,
    schedulers: &Vec<SchedulerKind>,
    modes: &Vec<AnalysisMode>,
)
    ensures
        final(points)@ == old(points)@ + over_counts(
            point,
            counts@,
            seeds@,
            schedulers@,
            modes@,
        ),
{
    let ghost before = points@;
    let mut i: usize = 0;
    proof {
        assert(points@ =~= before + over_counts(
            point,
            counts@.take(0),
            seeds@,
            schedulers@,
            modes@,
        ));
    }
    while i < counts.len()
        invariant
            i <= counts@.len(),
            points@ == before + over_counts(
                point,
                counts@.take(i as int),
                seeds@,
                schedulers@,
                modes@,
            ),
        decreases counts@.len() - i,
    {
        let next = SweepPoint { task_count: counts[i], ..point };
        push_seeds(points, next, seeds, schedulers, modes);
        proof {
            assert(counts@.take(i as int + 1).drop_last() =~= counts@.take(i as int));
            assert(points@ =~= before + over_counts(
                point,
                counts@.take(i as int + 1),
                seeds@,
                schedulers@,
                modes@,
            ));
        }
        i = i + 1;
    }
    proof {
        assert(counts@.take(i as int) =~= counts@);
    }
}

fn push_seeds(
    points: &mut Vec<SweepPoint>,
    point: SweepPoint,
    seeds: &Vec<u64>,
    schedulers: &Vec<SchedulerKind>,
    modes: &Vec<AnalysisMode>,
)
    ensures
        final(points)@ == old(points)@ + over_seeds(point, seeds@, schedulers@, modes@),
{
    let ghost before = points@;
    let mut i: usize = 0;
    proof {
        assert(points@ =~= before + over_seeds(point, seeds@.take(0), schedulers@, modes@));
    }
    while i < seeds.len()
        invariant
            i <= seeds@.len(),
            points@ == before + over_seeds(point, seeds@.take(i as int), schedulers@, modes@),
        decreases seeds@.len() - i,
    {
        let next = SweepPoint { seed: seeds[i], ..point };
        push_schedulers(points, next, schedulers, modes);
        proof {
            assert(seeds@.take(i as int + 1).drop_last() =~= seeds@.take(i as int));
            assert(points@ =~= before + over_seeds(
                point,
                seeds@.take(i as int + 1),
                schedulers@,
                modes@,
            ));
        }
        i = i + 1;
    }
    proof {
        assert(seeds@.take(i as int) =~= seeds@);
    }
}

fn push_schedulers(
    points: &mut Vec<SweepPoint>,
    point: SweepPoint,
    schedulers: &Vec<SchedulerKind>,
    modes: &Vec<AnalysisMode>,
)
    ensures
        final(points)@ == old(points)@ + over_schedulers(point, schedulers@, modes@),
{
    let ghost before = points@;
    let mut i: usize = 0;
    proof {
        assert(points@ =~= before + over_schedulers(point, schedulers@.take(0), modes@));
    }
    while i < schedulers.len()
        invariant
            i <= schedulers@.len(),
            points@ == before + over_schedulers(point, schedulers@.take(i as int), modes@),
        decreases schedulers@.len() - i,
    {
        let next = SweepPoint { scheduler: schedulers[i], ..point };
        push_modes(points, next, modes);
        proof {
            assert(schedulers@.take(i as int + 1).drop_last() =~= schedulers@.take(i as int));
            assert(points@ =~= before + over_schedulers(
                point,
                schedulers@.take(i as int + 1),
                modes@,
            ));
        }
        i = i + 1;
    }
    proof {
        assert(schedulers@.take(i as int) =~= schedulers@);
    }
}

fn push_modes(points: &mut Vec<SweepPoint>, point: SweepPoint, modes: &Vec<AnalysisMode>)
    ensures
        final(points)@ == old(points)@ + over_modes(point, modes@),
{
    let ghost before = points@;
    let ghost all = over_modes(point, modes@);
    let mut i: usize = 0;
    proof {
        assert(points@ =~= before + all.take(0));
    }
    while i < modes.len()
        invariant
            i <= modes@.len(),
            all == over_modes(point, modes@),
            points@ == before + all.take(i as int),
        decreases modes@.len() - i,
    {
        points.push(SweepPoint { analysis_mode: modes[i], ..point });
        proof {
            assert(points@ =~= before + all.take(i as int + 1));
        }
        i = i + 1;
    }
    proof {
        assert(all.take(i as int) =~= all);
    }
}

/// What is to be swept over, but for the utilizations.
#[derive(Debug)]
pub struct SweepPlan {
    pub task_counts: Vec<usize>,
    pub seeds: Vec<u64>,
    pub schedulers: Vec<SchedulerKind>,
    pub analysis_modes: Vec<AnalysisMode>,
}

/// The message for an analysis mode that needs a recorded workload.
pub open spec fn openmp_message() -> Seq<char> {
    "analysis mode 'openmp-wcrt' is only supported for --openmp-specialized-json single-run input"@
}

/// What is wrong with the arguments of a sweep: the first of them that cannot
/// be read, else an analysis mode that cannot be swept over.
pub open spec fn plan_fault(
    task_counts: Seq<char>,
    seeds: Seq<char>,
    schedulers: Seq<char>,
    analysis_modes: Seq<char>,
) -> Option<Seq<char>> {
    match (
        count_values(words::pieces(task_counts, ',')),
        range_values(seeds),
        catalog::scheduler_list(schedulers),
        analysis::mode_list(analysis_modes),
    ) {
        (Err(e), _, _, _) => Some("bad --task-counts: "@ + e.text()),
        (_, Err(text), _, _) => Some("bad --seeds: "@ + text),
        (_, _, Err(text), _) => Some("bad --schedulers: "@ + text),
        (_, _, _, Err(text)) => Some("bad --analysis-modes: "@ + text),
        (_, _, _, Ok(modes)) => if modes.contains(AnalysisMode::OpenmpWcrt) {
            Some(openmp_message())
        } else {
            None
        },
    }
}

/// A message with what it is about in front.
fn about(what: &str, message: &str) -> (text: String)
    ensures
        text@ == what@ + message@,
{
    let mut text: String = String::from_str(what);
    text.append(message);
    text
}

/// Tells whether the mode for OpenMP programs is among modes.
fn has_openmp(modes: &Vec<AnalysisMode>) -> (yes: bool)
    ensures
        yes == modes@.contains(AnalysisMode::OpenmpWcrt),
{
    let mut i: usize = 0;
    while i < modes.len()
        invariant
            i <= modes@.len(),
            forall|k: int| 0 <= k < i ==> #[trigger] modes@[k] != AnalysisMode::OpenmpWcrt,
        decreases modes@.len() - i,
    {
        if modes[i] == AnalysisMode::OpenmpWcrt {
            proof {
                assert(modes@[i as int] == AnalysisMode::OpenmpWcrt);
            }
            return true;
        }
        i = i + 1;
    }
    false
}

/// Reads the arguments of a sweep.
pub fn plan_sweep(task_counts: &str, seeds: &str, schedulers: &str, analysis_modes: &str) -> (plan:
    Result<SweepPlan, String>)
    ensures
        match plan {
            Ok(p) => {
                &&& plan_fault(task_counts@, seeds@, schedulers@, analysis_modes@) is None
                &&& count_values(words::pieces(task_counts@, ',')) == Ok::<
                    Seq<usize>,
                    NumberError,
                >(p.task_counts@)
                &&& range_values(seeds@) == Ok::<Seq<u64>, Seq<char>>(p.seeds@)
                &&& catalog::scheduler_list(schedulers@) == Ok::<
                    Seq<SchedulerKind>,
                    Seq<char>,
                >(p.schedulers@)
                &&& analysis::mode_list(analysis_modes@) == Ok::<
                    Seq<AnalysisMode>,
                    Seq<char>,
                >(p.analysis_modes@)
            },
            Err(e) => plan_fault(task_counts@, seeds@, schedulers@, analysis_modes@) == Some(e@),
        },
{
    let counts: Vec<usize> = match parse_task_counts(task_counts) {
        Ok(list) => list,
        Err(e) => {
            return Err(about("bad --task-counts: ", e.describe()));
        },
    };
    let seed_list: Vec<u64> = match parse_range_u64(seeds) {
        Ok(list) => list,
        Err(e) => {
            return Err(about("bad --seeds: ", e.as_str()));
        },
    };
    let kinds: Vec<SchedulerKind> = match catalog::parse_scheduler_list(schedulers) {
        Ok(list) => list,
        Err(e) => {
            return Err(about("bad --schedulers: ", e.as_str()));
        },
    };
    let modes: Vec<AnalysisMode> = match analysis::parse_analysis_mode_list(analysis_modes) {
        Ok(list) => list,
        Err(e) => {
            return Err(about("bad --analysis-modes: ", e.as_str()));
        },
    };
    if has_openmp(&modes) {
        return Err(
            String::from_str(
                "analysis mode 'openmp-wcrt' is only supported for --openmp-specialized-json single-run input",
            ),
        );
    }
    Ok(
        SweepPlan {
            task_counts: counts,
            seeds: seed_list,
            schedulers: kinds,
            analysis_modes: modes,
        },
    )
}

impl SweepPlan {
    /// Lists the experiments of the sweep over a number of utilizations.
    pub fn points(&self, utilizations: usize) -> (points: Vec<SweepPoint>)
        ensures
            points@ == over_utilizations(
                utilizations as nat,
                self.task_counts@,
                self.seeds@,
                self.schedulers@,
                self.analysis_modes@,
            ),
    {
        sweep_points(
            utilizations,
            &self.task_counts,
            &self.seeds,
            &self.schedulers,
            &self.analysis_modes,
        )
    }
}

/// Tells whether to show how far a sweep has come: at every tenth experiment,
/// and at the last one.
pub fn shows_progress(done: usize, total: usize) -> (yes: bool)
    ensures
        yes == (done % 10 == 0 || done == total),
{
    done % 10 == 0 || done == total
}

/// The outcome of one experiment of a sweep.
#[derive(Debug)]
pub struct SweepRow {
    pub point: SweepPoint,
    pub algorithm: &'static str,
    pub algorithm_key: &'static str,
    pub algorithm_family: &'static str,
    pub analysis_mode: &'static str,
    pub analysis: AnalysisMetadataSnapshot,
    pub workload: WorkloadMetadataSnapshot,
    pub result: SimResult,
}

/// Describes the outcome of one experiment of a sweep over generated
/// workloads.
pub fn sweep_row(point: SweepPoint, result: SimResult) -> (row: SweepRow)
    ensures
        row.point == point,
        row.result == result,
        row.algorithm@ == catalog::label_text(point.scheduler),
        row.algorithm_key@ == catalog::key_text(point.scheduler),
        row.algorithm_family@ == catalog::family_text(point.scheduler),
        row.analysis_mode@ == point.analysis_mode.key_text(),
        row.analysis.scope@ == point.analysis_mode.scope_text(),
        row.analysis.assumptions_json@ == json::assumptions_text(
            analysis::assumptions(point.analysis_mode),
        ),
        row.analysis.assumption_count == analysis::assumptions(point.analysis_mode).len(),
        row.workload.source@ == "synthetic"@,
        row.workload.assumptions_json@ == json::assumptions_text(Seq::empty()),
        row.workload.assumption_count == 0,
{
    let workload = WorkloadInput::Synthetic { tasks: Vec::new() };
    SweepRow {
        point,
        algorithm: catalog::scheduler_label(point.scheduler),
        algorithm_key: catalog::scheduler_key(point.scheduler),
        algorithm_family: catalog::scheduler_family(point.scheduler),
        analysis_mode: point.analysis_mode.key(),
        analysis: analysis::analysis_metadata_snapshot(point.analysis_mode),
        workload: replay::workload_metadata_snapshot(&workload),
        result,
    }
}

/// The number of schedulable outcomes.
pub open spec fn schedulable_rows(rows: Seq<SweepRow>) -> nat
    decreases rows.len(),
{
    if rows.len() == 0 {
        0
    } else {
        schedulable_rows(rows.drop_last()) + if rows.last().result.schedulable {
            1nat
        } else {
            0nat
        }
    }
}

/// Counts the schedulable outcomes.
pub fn schedulable_count(rows: &Vec<SweepRow>) -> (n: usize)
    ensures
        n == schedulable_rows(rows@),
        n <= rows@.len(),
{
    let mut n: usize = 0;
    let mut i: usize = 0;
    while i < rows.len()
        invariant
            n <= i <= rows@.len(),
            n == schedulable_rows(rows@.take(i as int)),
        decreases rows@.len() - i,
    {
        proof {
            assert(rows@.take(i as int + 1).drop_last() =~= rows@.take(i as int));
        }
        if rows[i].result.schedulable {
            n = n + 1;
        }
        i = i + 1;
    }
    proof {
        assert(rows@.take(i as int) =~= rows@);
    }
    n
}

/// A sweep has as many experiments as there are combinations.
pub proof fn law_sweep_size(
    n: nat,
    counts: Seq<usize>,
    seeds: Seq<u64>,
    schedulers: Seq<SchedulerKind>,
    modes: Seq<AnalysisMode>,
)
    ensures
        over_utilizations(n, counts, seeds, schedulers, modes).len() == n * (counts.len() * (
        seeds.len() * (schedulers.len() * modes.len()))),
    decreases n,
{
    let each = counts.len() * (seeds.len() * (schedulers.len() * modes.len()));
    if n > 0 {
        let m = (n - 1) as nat;
        law_sweep_size(m, counts, seeds, schedulers, modes);
        lemma_counts_len(start_point(m as usize), counts, seeds, schedulers, modes);
        assert(m * each + each == n * each) by (nonlinear_arith)
            requires
                n == m + 1,
        ;
    } else {
        assert(0 * each == 0) by (nonlinear_arith);
    }
}

proof fn lemma_counts_len(
    point: SweepPoint,
    counts: Seq<usize>,
    seeds: Seq<u64>,
    schedulers: Seq<SchedulerKind>,
    modes: Seq<AnalysisMode>,
)
    ensures
        over_counts(point, counts, seeds, schedulers, modes).len() == counts.len() * (seeds.len()
            * (schedulers.len() * modes.len())),
    decreases counts.len(),
{
    let each = seeds.len() * (schedulers.len() * modes.len());
    if counts.len() > 0 {
        lemma_counts_len(point, counts.drop_last(), seeds, schedulers, modes);
        lemma_seeds_len(
            SweepPoint { task_count: counts.last(), ..point },
            seeds,
            schedulers,
            modes,
        );
        let n = counts.len();
        assert((n - 1) * each + each == n * each) by (nonlinear_arith);
    } else {
        assert(0 * each == 0) by (nonlinear_arith);
    }
}

proof fn lemma_seeds_len(
    point: SweepPoint,
    seeds: Seq<u64>,
    schedulers: Seq<SchedulerKind>,
    modes: Seq<AnalysisMode>,
)
    ensures
        over_seeds(point, seeds, schedulers, modes).len() == seeds.len() * (schedulers.len()
            * modes.len()),
    decreases seeds.len(),
{
    let each = schedulers.len() * modes.len();
    if seeds.len() > 0 {
        lemma_seeds_len(point, seeds.drop_last(), schedulers, modes);
        lemma_schedulers_len(
            SweepPoint { seed: seeds.last(), ..point },
            schedulers,
            modes,
        );
        let n = seeds.len();
        assert((n - 1) * each + each == n * each) by (nonlinear_arith);
    } else {
        assert(0 * each == 0) by (nonlinear_arith);
    }
}

proof fn lemma_schedulers_len(
    point: SweepPoint,
    schedulers: Seq<SchedulerKind>,
    modes: Seq<AnalysisMode>,
)
    ensures
        over_schedulers(point, schedulers, modes).len() == schedulers.len() * modes.len(),
    decreases schedulers.len(),
{
    let each = modes.len();
    if schedulers.len() > 0 {
        lemma_schedulers_len(point, schedulers.drop_last(), modes);
        let n = schedulers.len();
        assert((n - 1) * each + each == n * each) by (nonlinear_arith);
    } else {
        assert(0 * each == 0) by (nonlinear_arith);
    }
}

proof fn lemma_joined<T>(a: Seq<T>, b: Seq<T>, x: T)
    requires
        a.contains(x) || b.contains(x),
    ensures
        (a + b).contains(x),
{
    if a.contains(x) {
        let i = choose|i: int| 0 <= i < a.len() && a[i] == x;
        assert((a + b)[i] == x);
    } else {
        let i = choose|i: int| 0 <= i < b.len() && b[i] == x;
        assert((a + b)[a.len() + i] == x);
    }
}

proof fn lemma_schedulers_has(
    point: SweepPoint,
    schedulers: Seq<SchedulerKind>,
    modes: Seq<AnalysisMode>,
    x: SweepPoint,
    k: int,
)
    requires
        0 <= k < schedulers.len(),
        over_modes(SweepPoint { scheduler: schedulers[k], ..point }, modes).contains(x),
    ensures
        over_schedulers(point, schedulers, modes).contains(x),
    decreases schedulers.len(),
{
    let here = over_modes(SweepPoint { scheduler: schedulers.last(), ..point }, modes);
    if k < schedulers.len() - 1 {
        lemma_schedulers_has(point, schedulers.drop_last(), modes, x, k);
    }
    lemma_joined(over_schedulers(point, schedulers.drop_last(), modes), here, x);
}

proof fn lemma_seeds_has(
    point: SweepPoint,
    seeds: Seq<u64>,
    schedulers: Seq<SchedulerKind>,
    modes: Seq<AnalysisMode>,
    x: SweepPoint,
    k: int,
)
    requires
        0 <= k < seeds.len(),
        over_schedulers(SweepPoint { seed: seeds[k], ..point }, schedulers, modes).contains(x),
    ensures
        over_seeds(point, seeds, schedulers, modes).contains(x),
    decreases seeds.len(),
{
    let here = over_schedulers(SweepPoint { seed: seeds.last(), ..point }, schedulers, modes);
    if k < seeds.len() - 1 {
        lemma_seeds_has(point, seeds.drop_last(), schedulers, modes, x, k);
    }
    lemma_joined(over_seeds(point, seeds.drop_last(), schedulers, modes), here, x);
}

proof fn lemma_counts_has(
    point: SweepPoint,
    counts: Seq<usize>,
    seeds: Seq<u64>,
    schedulers: Seq<SchedulerKind>,
    modes: Seq<AnalysisMode>,
    x: SweepPoint,
    k: int,
)
    requires
        0 <= k < counts.len(),
        over_seeds(SweepPoint { task_count: counts[k], ..point }, seeds, schedulers, modes).contains(
            x,
        ),
    ensures
        over_counts(point, counts, seeds, schedulers, modes).contains(x),
    decreases counts.len(),
{
    let here = over_seeds(
        SweepPoint { task_count: counts.last(), ..point },
        seeds,
        schedulers,
        modes,
    );
    if k < counts.len() - 1 {
        lemma_counts_has(point, counts.drop_last(), seeds, schedulers, modes, x, k);
    }
    lemma_joined(over_counts(point, counts.drop_last(), seeds, schedulers, modes), here, x);
}

proof fn lemma_utilizations_has(
    n: nat,
    counts: Seq<usize>,
    seeds: Seq<u64>,
    schedulers: Seq<SchedulerKind>,
    modes: Seq<AnalysisMode>,
    x: SweepPoint,
    k: int,
)
    requires
        0 <= k < n,
        over_counts(start_point(k as usize), counts, seeds, schedulers, modes).contains(x),
    ensures
        over_utilizations(n, counts, seeds, schedulers, modes).contains(x),
    decreases n,
{
    let m = (n - 1) as nat;
    let here = over_counts(start_point(m as usize), counts, seeds, schedulers, modes);
    if k < m {
        lemma_utilizations_has(m, counts, seeds, schedulers, modes, x, k);
    }
    lemma_joined(over_utilizations(m, counts, seeds, schedulers, modes), here, x);
}

/// A sweep holds every combination of a utilization, a task count, a seed, a
/// scheduler and an analysis mode.
pub proof fn law_sweep_covers_the_product(
    n: nat,
    counts: Seq<usize>,
    seeds: Seq<u64>,
    schedulers: Seq<SchedulerKind>,
    modes: Seq<AnalysisMode>,
    x: SweepPoint,
)
    requires
        x.utilization < n,
        counts.contains(x.task_count),
        seeds.contains(x.seed),
        schedulers.contains(x.scheduler),
        modes.contains(x.analysis_mode),
    ensures
        over_utilizations(n, counts, seeds, schedulers, modes).contains(x),
{
    let c = choose|i: int| 0 <= i < counts.len() && counts[i] == x.task_count;
    let s = choose|i: int| 0 <= i < seeds.len() && seeds[i] == x.seed;
    let k = choose|i: int| 0 <= i < schedulers.len() && schedulers[i] == x.scheduler;
    let m = choose|i: int| 0 <= i < modes.len() && modes[i] == x.analysis_mode;
    let p0 = start_point(x.utilization);
    let p1 = SweepPoint { task_count: counts[c], ..p0 };
    let p2 = SweepPoint { seed: seeds[s], ..p1 };
    let p3 = SweepPoint { scheduler: schedulers[k], ..p2 };
    assert(over_modes(p3, modes)[m] == x);
    lemma_schedulers_has(p2, schedulers, modes, x, k);
    lemma_seeds_has(p1, seeds, schedulers, modes, x, s);
    lemma_counts_has(p0, counts, seeds, schedulers, modes, x, c);
    lemma_utilizations_has(n, counts, seeds, schedulers, modes, x, x.utilization as int);
}

/// A sweep varies the mode fastest, then the algorithm, the seed, the task count
/// and the utilization: a value added to a list comes after all that was there.
pub proof fn law_sweep_order(
    point: SweepPoint,
    modes: Seq<AnalysisMode>,
    kinds: Seq<SchedulerKind>,
    kind: SchedulerKind,
    seeds: Seq<u64>,
    seed: u64,
    counts: Seq<usize>,
    count: usize,
    n: nat,
    i: int,
)
    requires
        n < usize::MAX,
    ensures
        0 <= i < modes.len() ==> over_modes(point, modes)[i].analysis_mode == modes[i],
        ({
            let before = over_schedulers(point, kinds, modes);
            let all = over_schedulers(point, kinds.push(kind), modes);
            &&& before.is_prefix_of(all)
            &&& before.len() <= i < all.len() ==> all[i].scheduler == kind && all[i].seed
                == point.seed && all[i].analysis_mode == modes[i - before.len()]
        }),
        ({
            let before = over_seeds(point, seeds, kinds, modes);
            let all = over_seeds(point, seeds.push(seed), kinds, modes);
            let last = over_schedulers(SweepPoint { seed, ..point }, kinds, modes);
            &&& before.is_prefix_of(all)
            &&& all.len() == before.len() + last.len()
            &&& before.len() <= i < all.len() ==> all[i] == last[i - before.len()]
        }),
        ({
            let before = over_counts(point, counts, seeds, kinds, modes);
            let all = over_counts(point, counts.push(count), seeds, kinds, modes);
            let last = over_seeds(SweepPoint { task_count: count, ..point }, seeds, kinds, modes);
            &&& before.is_prefix_of(all)
            &&& all.len() == before.len() + last.len()
            &&& before.len() <= i < all.len() ==> all[i] == last[i - before.len()]
        }),
        ({
            let before = over_utilizations(n, counts, seeds, kinds, modes);
            let all = over_utilizations(n + 1, counts, seeds, kinds, modes);
            let last = over_counts(start_point(n as usize), counts, seeds, kinds, modes);
            &&& before.is_prefix_of(all)
            &&& all.len() == before.len() + last.len()
            &&& before.len() <= i < all.len() ==> all[i] == last[i - before.len()]
        }),
        start_point(n as usize).utilization == n,
{
    assert(kinds.push(kind).drop_last() =~= kinds);
    assert(seeds.push(seed).drop_last() =~= seeds);
    assert(counts.push(count).drop_last() =~= counts);
}

/// A sweep is refused for the first of its lists that cannot be read, named by
/// its option, and else for an analysis mode that it does not support.
pub proof fn law_sweeps_are_refused_in_turn(
    task_counts: Seq<char>,
    seeds: Seq<char>,
    schedulers: Seq<char>,
    analysis_modes: Seq<char>,
)
    ensures
        ({
            let fault = plan_fault(task_counts, seeds, schedulers, analysis_modes);
            let counts = count_values(words::pieces(task_counts, ','));
            let range = range_values(seeds);
            let kinds = catalog::scheduler_list(schedulers);
            let modes = analysis::mode_list(analysis_modes);
            &&& counts matches Err(e) ==> fault == Some("bad --task-counts: "@ + e.text())
            &&& counts is Ok && range is Err ==> fault == Some("bad --seeds: "@ + range->Err_0)
            &&& counts is Ok && range is Ok && kinds is Err ==> fault == Some(
                "bad --schedulers: "@ + kinds->Err_0,
            )
            &&& counts is Ok && range is Ok && kinds is Ok && modes is Err ==> fault == Some(
                "bad --analysis-modes: "@ + modes->Err_0,
            )
            &&& counts is Ok && range is Ok && kinds is Ok && modes is Ok ==> (fault is None <==> !(
            exists|i: int| 0 <= i < modes->Ok_0.len() && #[trigger] modes->Ok_0[i] is OpenmpWcrt))
        }),
{
    if let Ok(modes) = analysis::mode_list(analysis_modes) {
        if exists|i: int| 0 <= i < modes.len() && #[trigger] modes[i] is OpenmpWcrt {
            let i = choose|i: int| 0 <= i < modes.len() && #[trigger] modes[i] is OpenmpWcrt;
            assert(modes[i] == AnalysisMode::OpenmpWcrt);
        }
        if modes.contains(AnalysisMode::OpenmpWcrt) {
            let i = choose|i: int| 0 <= i < modes.len() && modes[i] == AnalysisMode::OpenmpWcrt;
            assert(modes[i] is OpenmpWcrt);
        }
    }
}

} // verus!

//! How texts are taken apart and numbers told: trimming, splitting, ranges,
//! rounding and JSON strings.

use crate::analysis::AnalysisMode;
use crate::catalog;
use crate::catalog::SchedulerKind;
use crate::engine::SimResult;
use crate::json;
use crate::replay::WorkloadMetadataSnapshot;
use crate::report;
use crate::report::Fractions;
use crate::search;
use crate::sweep;
use crate::sweep::SweepRow;
use crate::text;
use crate::time;
use crate::words;
use crate::words::NumberError;
use vstd::prelude::*;

verus! {

/// Whether a part of a text is what is left without white space around it.
pub open spec fn is_core(s: Seq<char>, a: int, b: int) -> bool {
    &&& 0 <= a <= b <= s.len()
    &&& forall|i: int| 0 <= i < a ==> words::is_white(#[trigger] s[i])
    &&& forall|i: int| b <= i < s.len() ==> words::is_white(#[trigger] s[i])
    &&& a < b ==> !words::is_white(s[a]) && !words::is_white(s[b - 1])
}

proof fn lemma_front(s: Seq<char>) -> (a: int)
    ensures
        0 <= a <= s.len(),
        words::trimmed_front(s) == s.skip(a),
        forall|i: int| 0 <= i < a ==> words::is_white(#[trigger] s[i]),
        a < s.len() ==> !words::is_white(s[a]),
    decreases s.len(),
{
    if s.len() > 0 && words::is_white(s[0]) {
        let rest = s.skip(1);
        let a = lemma_front(rest);
        assert(rest.skip(a) =~= s.skip(a + 1));
        assert forall|i: int| 0 <= i < a + 1 implies words::is_white(#[trigger] s[i]) by {
            if i > 0 {
                assert(rest[i - 1] == s[i]);
            }
        }
        if a + 1 < s.len() {
            assert(rest[a] == s[a + 1]);
        }
        a + 1
    } else {
        assert(s.skip(0) =~= s);
        0
    }
}

proof fn lemma_back(s: Seq<char>) -> (b: int)
    ensures
        0 <= b <= s.len(),
        words::trimmed_back(s) == s.take(b),
        forall|i: int| b <= i < s.len() ==> words::is_white(#[trigger] s[i]),
        b > 0 ==> !words::is_white(s[b - 1]),
    decreases s.len(),
{
    if s.len() > 0 && words::is_white(s.last()) {
        let rest = s.drop_last();
        let b = lemma_back(rest);
        assert(rest.take(b) =~= s.take(b));
        assert forall|i: int| b <= i < s.len() implies words::is_white(#[trigger] s[i]) by {
            if i < rest.len() {
                assert(rest[i] == s[i]);
            }
        }
        if b > 0 {
            assert(rest[b - 1] == s[b - 1]);
        }
        b
    } else {
        assert(s.take(s.len() as int) =~= s);
        s.len() as int
    }
}

/// Trimming leaves the text from its first to its last character that is not
/// white space.
pub proof fn law_trimming_leaves_the_core(s: Seq<char>) -> (part: (int, int))
    ensures
        is_core(s, part.0, part.1),
        words::trimmed(s) =~= s.subrange(part.0, part.1),
{
    let a = lemma_front(s);
    let front = s.skip(a);
    let b = lemma_back(front);
    assert forall|i: int| a + b <= i < s.len() implies words::is_white(#[trigger] s[i]) by {
        assert(front[i - a] == s[i]);
    }
    if b > 0 {
        assert(front[b - 1] == s[a + b - 1]);
    }
    assert(front.take(b) =~= s.subrange(a, a + b));
    (a, a + b)
}

/// Pieces put together again, with a separator between them.
pub open spec fn joined(list: Seq<Seq<char>>, separator: char) -> Seq<char>
    decreases list.len(),
{
    if list.len() == 0 {
        Seq::empty()
    } else if list.len() == 1 {
        list[0]
    } else {
        joined(list.drop_last(), separator).push(separator) + list.last()
    }
}

/// The pieces of a text have no separator in them, and make up the text when
/// they are put together again.
pub proof fn law_pieces_make_up_the_text(s: Seq<char>, separator: char)
    ensures
        words::pieces(s, separator).len() > 0,
        joined(words::pieces(s, separator), separator) =~= s,
        forall|k: int|
            0 <= k < words::pieces(s, separator).len() ==> !(#[trigger] words::pieces(
                s,
                separator,
            )[k]).contains(separator),
    decreases s.len(),
{
    let list = words::pieces(s, separator);
    if s.len() > 0 {
        let rest = words::pieces(s.drop_last(), separator);
        law_pieces_make_up_the_text(s.drop_last(), separator);
        assert(s.drop_last().push(s.last()) =~= s);
        if s.last() == separator {
            assert(list.drop_last() =~= rest);
            assert(joined(list, separator) =~= joined(rest, separator).push(separator)
                + Seq::empty());
            assert forall|k: int| 0 <= k < list.len() implies !(#[trigger] list[k]).contains(
                separator,
            ) by {
                if k < rest.len() {
                    assert(list[k] == rest[k]);
                }
            }
        } else {
            let n = rest.len() - 1;
            let grown = rest.last().push(s.last());
            assert(list.drop_last() =~= rest.drop_last());
            assert(list.last() == grown);
            if rest.len() == 1 {
                assert(joined(list, separator) == grown);
            } else {
                assert(joined(list, separator) =~= joined(rest, separator).push(s.last()));
            }
            assert forall|k: int| 0 <= k < list.len() implies !(#[trigger] list[k]).contains(
                separator,
            ) by {
                if k < n {
                    assert(list[k] == rest[k]);
                } else {
                    assert(!rest[n].contains(separator));
                    if grown.contains(separator) {
                        let i = choose|i: int| 0 <= i < grown.len() && grown[i] == separator;
                        assert(rest[n][i] == separator);
                    }
                }
            }
        }
    } else {
        assert(list[0].len() == 0);
    }
}

/// A range holds the numbers from its one end to its other, both among them,
/// in order.
pub proof fn law_ranges_hold_both_ends(start: u64, end: u64, n: u64, i: int)
    ensures
        sweep::from_to(start, end).contains(n) <==> start <= n <= end,
        0 <= i < sweep::from_to(start, end).len() ==> sweep::from_to(start, end)[i] == start + i,
{
    let list = sweep::from_to(start, end);
    if start <= n <= end {
        assert(list[n - start] == n);
    }
}

/// The number of schedulable outcomes is that of the rows that say so.
pub proof fn law_schedulable_rows_are_counted(rows: Seq<SweepRow>)
    ensures
        sweep::schedulable_rows(rows) == rows.filter(|r: SweepRow| r.result.schedulable).len(),
    decreases rows.len(),
{
    reveal(Seq::filter);
    if rows.len() > 0 {
        law_schedulable_rows_are_counted(rows.drop_last());
    }
}

/// A quotient is rounded to the nearest number, and to the even one of two that
/// are as near.
pub proof fn law_rounding_is_to_the_nearest(n: int, d: int)
    requires
        n >= 0,
        d > 0,
    ensures
        ({
            let q = time::round_half_even(n, d);
            &&& 2 * n <= 2 * (q * d) + d
            &&& 2 * (q * d) <= 2 * n + d
            &&& 2 * n == 2 * (q * d) + d || 2 * (q * d) == 2 * n + d ==> q % 2 == 0
        }),
{
    let q = n / d;
    let r = n % d;
    vstd::arithmetic::div_mod::lemma_fundamental_div_mod(n, d);
    assert(d * q == q * d) by (nonlinear_arith);
    assert((q + 1) * d == q * d + d) by (nonlinear_arith);
}

/// Times are told in the largest unit that they reach, with three decimals, and
/// in nanoseconds below a microsecond.
pub proof fn law_times_are_told_in_the_largest_unit(ns: u64)
    ensures
        ns < 1_000 ==> time::nanos_text(ns) =~= text::decimal(ns as nat) + "ns"@,
        1_000 <= ns < 1_000_000 ==> time::nanos_text(ns) =~= time::three_decimals(
            time::thousandths(ns as nat, 1_000) as nat,
        ) + "\u{b5}s"@,
        1_000_000 <= ns < 1_000_000_000 ==> time::nanos_text(ns) =~= time::three_decimals(
            time::thousandths(ns as nat, 1_000_000) as nat,
        ) + "ms"@,
        1_000_000_000 <= ns ==> time::nanos_text(ns) =~= time::three_decimals(
            time::thousandths(ns as nat, 1_000_000_000) as nat,
        ) + "s"@,
{
}

/// A decimal digit is that of its value.
pub proof fn law_digits_are_decimal(d: nat)
    requires
        d < 10,
    ensures
        text::digit(d) as int == '0' as int + d,
{
}

/// In a JSON string a quotation mark, a backslash and a control character are
/// written with a backslash in front, and any other character as it is.
pub proof fn law_strings_are_escaped(c: char)
    ensures
        c as int >= 0x20 && c != '"' && c != '\\' ==> json::escaped(c) =~= seq![c],
        (c as int) < 0x20 || c == '"' || c == '\\' ==> {
            &&& json::escaped(c).len() >= 2
            &&& json::escaped(c)[0] == '\\'
            &&& forall|i: int|
                0 <= i < json::escaped(c).len() ==> (#[trigger] json::escaped(c)[i]) as int >= 0x20
        },
        c == '"' || c == '\\' ==> json::escaped(c) =~= seq!['\\', c],
{
}

/// Digits are read from the left, ten times what was read before and the next
/// digit; what is no digit is an error, and so is a number beyond the largest.
pub proof fn law_digits_are_read_from_the_left(s: Seq<char>, c: char, max: u64)
    ensures
        words::digits_value(Seq::empty(), max) == Ok::<u64, NumberError>(0),
        words::digits_value(s, max) matches Ok(n) ==> {
            let value = n * 10 + (c as int - '0' as int);
            &&& !('0' <= c <= '9') ==> words::digits_value(s.push(c), max) == Err::<
                u64,
                NumberError,
            >(NumberError::InvalidDigit)
            &&& '0' <= c <= '9' && value > max ==> words::digits_value(s.push(c), max) == Err::<
                u64,
                NumberError,
            >(NumberError::TooLarge)
            &&& '0' <= c <= '9' && value <= max ==> words::digits_value(s.push(c), max) == Ok::<
                u64,
                NumberError,
            >(value as u64)
        },
{
    assert(s.push(c).drop_last() =~= s);
}

/// The lines of a report tell the figures of a result, each after its label.
pub proof fn law_reports_tell_the_figures(result: &SimResult, fractions: &Fractions, wall_us: u64)
    ensures
        ({
            let lines = report::figures(result, fractions, wall_us);
            &&& lines.len() == 15
            &&& lines[0] =~= "total_jobs      : "@ + text::decimal(result.total_jobs as nat)
            &&& lines[1] =~= "completed_jobs  : "@ + text::decimal(result.completed_jobs as nat)
            &&& lines[2] =~= "deadline_misses : "@ + text::decimal(result.deadline_misses as nat)
            &&& lines[3] =~= "miss_ratio      : "@ + fractions.miss_ratio@
            &&& lines[4] =~= "schedulable     : "@ + if result.schedulable {
                "true"@
            } else {
                "false"@
            }
            &&& lines[5] =~= "makespan_ns     : "@ + text::decimal(result.makespan as nat)
            &&& lines[6] =~= "avg_response_ns : "@ + fractions.avg_response_ns@
            &&& lines[7] =~= "worst_response_ns: "@ + text::decimal(
                result.worst_response_time as nat,
            )
            &&& lines[8] =~= "transfer_overhead_ns: "@ + text::decimal(
                result.transfer_overhead as nat,
            )
            &&& lines[9] =~= "preemption_count : "@ + text::decimal(result.preemption_count as nat)
            &&& lines[10] =~= "migration_count  : "@ + text::decimal(result.migration_count as nat)
            &&& lines[11] =~= "bus_contention_ratio: "@ + fractions.bus_contention_ratio@
            &&& lines[12] =~= "energy_total_joules: "@ + fractions.energy_joules@
            &&& lines[13] =~= "events_processed: "@ + text::decimal(result.events_processed as nat)
            &&& lines[14] =~= "wall_time_us    : "@ + text::decimal(wall_us as nat)
        }),
{
}

/// Blanks, tabs and line ends are white space; letters, digits and other visible
/// characters of ASCII are not.
pub proof fn law_blanks_are_white(c: char)
    ensures
        c == ' ' || c == '\t' || c == '\n' || c == '\r' ==> words::is_white(c),
        '!' <= c <= '~' ==> !words::is_white(c),
{
}

/// A text has another one in it where that stands at some place of it.
pub proof fn law_parts_are_found(s: Seq<char>, before: Seq<char>, part: Seq<char>, after: Seq<char>)
    requires
        s =~= before + part + after,
    ensures
        words::has_within(s, part),
{
    let i = before.len() as int;
    assert(s.subrange(i, i + part.len()) =~= part);
}

/// The words of a list are its pieces between commas that are not blank,
/// without white space around them.
pub proof fn law_words_are_the_pieces(list: Seq<Seq<char>>, word: Seq<char>)
    ensures
        words::not_blank(list).contains(word) <==> word.len() > 0 && exists|i: int|
            0 <= i < list.len() && words::trimmed(#[trigger] list[i]) == word,
    decreases list.len(),
{
    if list.len() > 0 {
        let rest = list.drop_last();
        let n = list.len() - 1;
        law_words_are_the_pieces(rest, word);
        search::lemma_push(words::not_blank(rest), words::trimmed(list.last()), word);
        if exists|i: int| 0 <= i < list.len() && words::trimmed(#[trigger] list[i]) == word {
            let i = choose|i: int|
                0 <= i < list.len() && words::trimmed(#[trigger] list[i]) == word;
            if i < n {
                assert(words::trimmed(rest[i]) == word);
            }
        }
        if exists|i: int| 0 <= i < rest.len() && words::trimmed(#[trigger] rest[i]) == word {
            let i = choose|i: int|
                0 <= i < rest.len() && words::trimmed(#[trigger] rest[i]) == word;
            assert(words::trimmed(list[i]) == word);
        }
        if words::trimmed(list.last()) == word {
            assert(words::trimmed(list[n]) == word);
        }
    }
}

/// Task counts are the numbers of their pieces, one for one; the first piece
/// that is no number is the error.
pub proof fn law_counts_are_read_one_for_one(parts: Seq<Seq<char>>)
    ensures
        match sweep::count_values(parts) {
            Ok(list) => list.len() == parts.len() && forall|i: int|
                0 <= i < parts.len() ==> (words::number_value(
                    words::trimmed(#[trigger] parts[i]),
                    usize::MAX as u64,
                ) matches Ok(n) && list[i] == n),
            Err(e) => exists|i: int|
                0 <= i < parts.len() && words::number_value(
                    words::trimmed(#[trigger] parts[i]),
                    usize::MAX as u64,
                ) == Err::<u64, NumberError>(e) && forall|j: int|
                    0 <= j < i ==> words::number_value(
                        words::trimmed(#[trigger] parts[j]),
                        usize::MAX as u64,
                    ) is Ok,
        },
    decreases parts.len(),
{
    if parts.len() > 0 {
        let rest = parts.drop_last();
        let n = parts.len() - 1;
        law_counts_are_read_one_for_one(rest);
        words::lemma_number_bound(words::trimmed(parts[n]), usize::MAX as u64);
        assert forall|i: int| 0 <= i < rest.len() implies rest[i] == #[trigger] parts[i] by {}
        match sweep::count_values(rest) {
            Err(e) => {
                let i = choose|i: int|
                    0 <= i < rest.len() && words::number_value(
                        words::trimmed(#[trigger] rest[i]),
                        usize::MAX as u64,
                    ) == Err::<u64, NumberError>(e) && forall|j: int|
                        0 <= j < i ==> words::number_value(
                            words::trimmed(#[trigger] rest[j]),
                            usize::MAX as u64,
                        ) is Ok;
                assert(parts[i] == rest[i]);
                assert forall|j: int| 0 <= j < i implies words::number_value(
                    words::trimmed(#[trigger] parts[j]),
                    usize::MAX as u64,
                ) is Ok by {
                    assert(parts[j] == rest[j]);
                }
            },
            Ok(list) => {
                assert forall|i: int| 0 <= i < n implies (words::number_value(
                    words::trimmed(#[trigger] parts[i]),
                    usize::MAX as u64,
                ) matches Ok(m) && list[i] == m) by {
                    assert(parts[i] == rest[i]);
                }
                assert(parts[n] == parts.last());
            },
        }
    }
}

/// The first lines of a report name the algorithm, the analysis mode and the
/// workload.
pub proof fn law_reports_name_the_experiment(
    kind: SchedulerKind,
    mode: AnalysisMode,
    workload: &WorkloadMetadataSnapshot,
)
    ensures
        ({
            let lines = report::heading(kind, mode, workload);
            &&& lines.len() >= 9
            &&& lines[1] =~= "algorithm      : "@ + catalog::label_text(kind)
            &&& lines[2] =~= "algorithm_key  : "@ + catalog::key_text(kind)
            &&& lines[3] =~= "algorithm_family: "@ + catalog::family_text(kind)
            &&& lines[4] =~= "analysis_mode  : "@ + mode.key_text()
            &&& lines[5] =~= "analysis_scope : "@ + mode.scope_text()
            &&& mode is NoAnalysis && workload.assumption_count == 0 ==> lines.len() == 9
                && lines[7] =~= "workload_source: "@ + workload.source@
        }),
{
}

/// A scale that is a power of two is halved no further than a small quotient
/// needs.
proof fn lemma_scale(n: nat, unit: nat, j: nat)
    requires
        n < 9_007_199_254_740_992,
        unit >= 1_000,
    ensures
        time::quotient_scale(n, unit, 512 * vstd::arithmetic::power2::pow2(j)) >= 512,
    decreases j,
{
    let scale = 512 * vstd::arithmetic::power2::pow2(j);
    vstd::arithmetic::power2::lemma2_to64();
    vstd::arithmetic::power2::lemma_pow2_pos(j);
    if j == 0 {
        assert(n * 512 < unit * 9_007_199_254_740_992) by (nonlinear_arith)
            requires
                n < 9_007_199_254_740_992,
                unit >= 1_000,
        ;
    } else {
        vstd::arithmetic::power2::lemma_pow2_unfold(j);
        lemma_scale(n, unit, (j - 1) as nat);
        assert(scale / 2 == 512 * vstd::arithmetic::power2::pow2((j - 1) as nat));
    }
}

/// Times below 2^53 ns are told to within two thousandths of their unit.
pub proof fn law_times_are_told_to_the_thousandth(ns: nat, unit: nat)
    requires
        ns < 9_007_199_254_740_992,
        unit >= 1_000,
    ensures
        1000 * ns - 2 * unit < time::thousandths(ns, unit) * unit < 1000 * ns + 2 * unit,
{
    let scale = time::quotient_scale(ns, unit, time::DOUBLE_STEP as nat);
    vstd::arithmetic::power2::lemma2_to64_rest();
    lemma_scale(ns, unit, 43);
    assert(time::double_grain(ns, 1) == 1);
    assert(time::round_half_even(ns as int, 1) == ns);
    assert(time::nearest_double(ns) == ns);
    let mantissa = time::round_half_even((ns * scale) as int, unit as int);
    let t = time::round_half_even(mantissa * 1000, scale as int);
    assert(ns * scale >= 0) by (nonlinear_arith);
    law_rounding_is_to_the_nearest((ns * scale) as int, unit as int);
    lemma_not_below(mantissa, unit as int, (ns * scale) as int);
    law_rounding_is_to_the_nearest(mantissa * 1000, scale as int);
    lemma_told(t, mantissa, ns as int, unit as int, scale as int);
}

/// What is nearest to a count of units is no negative number.
proof fn lemma_not_below(q: int, d: int, n: int)
    requires
        n >= 0,
        d > 0,
        2 * n <= 2 * (q * d) + d,
    ensures
        q >= 0,
{
    if q < 0 {
        assert(q * d <= -d) by (nonlinear_arith)
            requires
                q <= -1,
                d > 0,
        ;
    }
}

/// Two roundings, the first in steps of at most a 512th, miss a quotient by less
/// than two.
proof fn lemma_told(t: int, m: int, n: int, unit: int, scale: int)
    requires
        unit > 0,
        scale >= 512,
        2 * (n * scale) <= 2 * (m * unit) + unit,
        2 * (m * unit) <= 2 * (n * scale) + unit,
        2 * (m * 1000) <= 2 * (t * scale) + scale,
        2 * (t * scale) <= 2 * (m * 1000) + scale,
    ensures
        1000 * n - 2 * unit < t * unit < 1000 * n + 2 * unit,
{
    let a = t * unit - 1000 * n;
    assert(2 * (t * scale) * unit <= (2 * (m * 1000) + scale) * unit) by (nonlinear_arith)
        requires
            2 * (t * scale) <= 2 * (m * 1000) + scale,
            unit > 0,
    ;
    assert((2 * (t * scale) + scale) * unit >= 2 * (m * 1000) * unit) by (nonlinear_arith)
        requires
            2 * (m * 1000) <= 2 * (t * scale) + scale,
            unit > 0,
    ;
    assert(2 * (t * scale) * unit == 2 * ((t * unit) * scale)) by (nonlinear_arith);
    assert((2 * (m * 1000) + scale) * unit == 2000 * (m * unit) + unit * scale) by (nonlinear_arith);
    assert((2 * (t * scale) + scale) * unit == 2 * ((t * unit) * scale) + unit * scale)
        by (nonlinear_arith);
    assert(2 * (m * 1000) * unit == 2000 * (m * unit)) by (nonlinear_arith);
    assert(a * scale == (t * unit) * scale - 1000 * (n * scale)) by (nonlinear_arith)
        requires
            a == t * unit - 1000 * n,
    ;
    assert(512 * unit <= unit * scale) by (nonlinear_arith)
        requires
            unit > 0,
            scale >= 512,
    ;
    assert(2 * unit * scale == 2 * (unit * scale)) by (nonlinear_arith);
    assert(-(2 * unit) < a < 2 * unit) by (nonlinear_arith)
        requires
            unit > 0,
            scale >= 512,
            a * scale < 2 * unit * scale,
            a * scale > -(2 * unit * scale),
    ;
}

/// Assumptions are written one after the other, each with its code and its
/// detail, with commas between them.
pub proof fn law_assumptions_are_listed(
    list: Seq<(Seq<char>, Seq<char>)>,
    next: (Seq<char>, Seq<char>),
)
    ensures
        ({
            let one = "{\"code\":"@ + json::string_text(next.0) + ",\"detail\":"@
                + json::string_text(next.1) + "}"@;
            &&& json::assumptions_text(Seq::empty()) =~= "[]"@
            &&& json::assumptions_text(seq![next]) =~= "["@ + one + "]"@
            &&& list.len() > 0 ==> json::assumptions_text(list.push(next)) =~= "["@
                + json::assumption_items(list) + ","@ + one + "]"@
        }),
{
    reveal_strlit("[");
    reveal_strlit("]");
    reveal_strlit("[]");
    assert(list.push(next).drop_last() =~= list);
    assert(seq![next].last() == next);
}

} // verus!

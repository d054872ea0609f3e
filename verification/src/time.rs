//! Simulation time with nanosecond precision.

use crate::text;
use vstd::prelude::*;
use vstd::string::*;

verus! {

/// Nanosecond timestamp. All simulation times are in nanoseconds.
pub type Nanos = u64;

/// Nanoseconds in a microsecond.
pub const NS_PER_US: Nanos = 1_000;

/// Nanoseconds in a millisecond.
pub const NS_PER_MS: Nanos = 1_000_000;

/// Nanoseconds in a second.
pub const NS_PER_SEC: Nanos = 1_000_000_000;

/// Converts microseconds to nanoseconds.
pub fn us(val: u64) -> (ns: Nanos)
    requires
        val * NS_PER_US <= u64::MAX,
    ensures
        ns == val * NS_PER_US,
        ns == val * 1_000,
{
    val * NS_PER_US
}

/// Converts milliseconds to nanoseconds.
pub fn ms(val: u64) -> (ns: Nanos)
    requires
        val * NS_PER_MS <= u64::MAX,
    ensures
        ns == val * NS_PER_MS,
        ns == val * 1_000_000,
{
    val * NS_PER_MS
}

/// Converts seconds to nanoseconds.
pub fn sec(val: u64) -> (ns: Nanos)
    requires
        val * NS_PER_SEC <= u64::MAX,
    ensures
        ns == val * NS_PER_SEC,
        ns == val * 1_000_000_000,
{
    val * NS_PER_SEC
}

/// `n / d` rounded to the nearest integer, ties to the even one.
pub open spec fn round_half_even(n: int, d: int) -> int {
    let q = n / d;
    let r = n % d;
    if 2 * r < d || (2 * r == d && q % 2 == 0) {
        q
    } else {
        q + 1
    }
}

/// Two to the power 53: a binary floating-point number of double precision
/// holds integers below it exactly.
pub const DOUBLE_LIMIT: u128 = 9_007_199_254_740_992;

/// Two to the power 52.
pub const DOUBLE_STEP: u128 = 4_503_599_627_370_496;

/// The spacing of double-precision numbers around `n`, tried from `grain` up
/// in powers of two.
pub open spec fn double_grain(n: nat, grain: nat) -> nat
    decreases n - grain,
{
    if grain == 0 || n < grain * (DOUBLE_LIMIT as nat) {
        grain
    } else {
        double_grain(n, 2 * grain)
    }
}

/// The double-precision number nearest to `n`.
pub open spec fn nearest_double(n: nat) -> nat {
    let grain = double_grain(n, 1);
    (round_half_even(n as int, grain as int) * grain) as nat
}

/// The power of two, tried from `scale` down, for which `scale * n / d` stays
/// below two to the power 53.
pub open spec fn quotient_scale(n: nat, d: nat, scale: nat) -> nat
    decreases scale,
{
    if scale <= 1 || n * scale < d * (DOUBLE_LIMIT as nat) {
        scale
    } else {
        quotient_scale(n, d, scale / 2)
    }
}

/// Thousandths in the double-precision quotient of `ns` and `unit`, rounded to
/// the nearest one, ties to the even one.
pub open spec fn thousandths(ns: nat, unit: nat) -> int {
    let n = nearest_double(ns);
    let scale = quotient_scale(n, unit, DOUBLE_STEP as nat);
    let mantissa = round_half_even((n * scale) as int, unit as int);
    round_half_even(mantissa * 1000, scale as int)
}

/// A number of thousandths with three decimals.
pub open spec fn three_decimals(t: nat) -> Seq<char> {
    text::decimal(t / 1000) + "."@ + seq![
        text::digit((t / 100) % 10),
        text::digit((t / 10) % 10),
        text::digit(t % 10),
    ]
}

/// `ns` for a reader: in the largest of s, ms and \u{b5}s that it reaches, with
/// three decimals, and in ns below that.
pub open spec fn nanos_text(ns: u64) -> Seq<char> {
    if ns >= NS_PER_SEC {
        three_decimals(thousandths(ns as nat, NS_PER_SEC as nat) as nat) + "s"@
    } else if ns >= NS_PER_MS {
        three_decimals(thousandths(ns as nat, NS_PER_MS as nat) as nat) + "ms"@
    } else if ns >= NS_PER_US {
        three_decimals(thousandths(ns as nat, NS_PER_US as nat) as nat) + "\u{b5}s"@
    } else {
        text::decimal(ns as nat) + "ns"@
    }
}

/// Divides and rounds to the nearest integer, ties to the even one.
fn div_half_even(n: u128, d: u128) -> (q: u128)
    requires
        0 < d <= 0x1_0000_0000_0000_0000,
        n < u128::MAX,
    ensures
        q == round_half_even(n as int, d as int),
        q <= n / d + 1,
{
    let q: u128 = n / d;
    let r: u128 = n % d;
    assert(q <= n) by (nonlinear_arith)
        requires
            q == n / d,
            d > 0,
    ;
    if 2 * r < d || (2 * r == d && q % 2 == 0) {
        q
    } else {
        q + 1
    }
}

/// Counts the thousandths of the double-precision quotient.
fn count_thousandths(ns: u64, unit: u64) -> (t: u128)
    requires
        0 < unit <= NS_PER_SEC,
        unit <= ns,
    ensures
        t == thousandths(ns as nat, unit as nat),
        t < 0x1_0000_0000_0000_0000_0000,
{
    let mut grain: u128 = 1;
    while ns as u128 >= grain * DOUBLE_LIMIT
        invariant
            1 <= grain <= 4096,
            double_grain(ns as nat, 1) == double_grain(ns as nat, grain as nat),
        decreases 8192 - grain,
    {
        assert(grain < 4096);
        grain = grain * 2;
    }
    let units: u128 = div_half_even(ns as u128, grain);
    assert(units * grain <= ns + grain) by (nonlinear_arith)
        requires
            units <= ns as int / (grain as int) + 1,
            grain > 0,
    ;
    let n: u128 = units * grain;
    assert(n == nearest_double(ns as nat));
    let mut scale: u128 = DOUBLE_STEP;
    assert(n * scale <= 0x1_0000_0000_0000_1000 * DOUBLE_STEP) by (nonlinear_arith)
        requires
            n <= 0x1_0000_0000_0000_1000,
            scale <= DOUBLE_STEP,
    ;
    while scale > 1 && n * scale >= unit as u128 * DOUBLE_LIMIT
        invariant
            n <= 0x1_0000_0000_0000_1000,
            1 <= scale <= DOUBLE_STEP,
            n * scale <= 0x1_0000_0000_0000_1000 * DOUBLE_STEP,
            unit <= NS_PER_SEC,
            quotient_scale(n as nat, unit as nat, DOUBLE_STEP as nat) == quotient_scale(
                n as nat,
                unit as nat,
                scale as nat,
            ),
        decreases scale,
    {
        scale = scale / 2;
        assert(n * scale <= 0x1_0000_0000_0000_1000 * DOUBLE_STEP) by (nonlinear_arith)
            requires
                n <= 0x1_0000_0000_0000_1000,
                scale <= DOUBLE_STEP,
        ;
    }
    let mantissa: u128 = div_half_even(n * scale, unit as u128);
    assert(mantissa <= n * scale + 1) by (nonlinear_arith)
        requires
            mantissa <= (n * scale) / (unit as int) + 1,
            unit > 0,
            n * scale >= 0,
    ;
    let t: u128 = div_half_even(mantissa * 1000, scale);
    assert(t <= 1000 * (n + 1) + 1) by (nonlinear_arith)
        requires
            t <= (mantissa * 1000) / (scale as int) + 1,
            mantissa <= n * scale + 1,
            scale >= 1,
    ;
    t
}

/// Appends a number of thousandths with three decimals.
fn push_three_decimals(out: &mut String, t: u128)
    requires
        t < 0x1_0000_0000_0000_0000_0000,
    ensures
        final(out)@ == old(out)@ + three_decimals(t as nat),
{
    text::push_decimal(out, t / 1000);
    out.append(".");
    text::push_digit(out, ((t / 100) % 10) as u8);
    text::push_digit(out, ((t / 10) % 10) as u8);
    text::push_digit(out, (t % 10) as u8);
}

/// Formats nanoseconds as a human-readable string.
pub fn fmt_nanos(ns: Nanos) -> (s: String)
    ensures
        s@ == nanos_text(ns),
{
    let mut out: String = String::new();
    if ns >= NS_PER_SEC {
        let t: u128 = count_thousandths(ns, NS_PER_SEC);
        push_three_decimals(&mut out, t);
        out.append("s");
    } else if ns >= NS_PER_MS {
        let t: u128 = count_thousandths(ns, NS_PER_MS);
        push_three_decimals(&mut out, t);
        out.append("ms");
    } else if ns >= NS_PER_US {
        let t: u128 = count_thousandths(ns, NS_PER_US);
        push_three_decimals(&mut out, t);
        out.append("\u{b5}s");
    } else {
        text::push_decimal(&mut out, ns as u128);
        out.append("ns");
    }
    out
}

} // verus!

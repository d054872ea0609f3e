//! Saturating arithmetic on timestamps, exact rates and ratios.

use vstd::prelude::*;

verus! {

/// An exact rate: the quotient of two numbers, infinite where only the
/// denominator is zero.
#[derive(Debug, Clone, Copy, PartialEq, Eq, Structural)]
pub struct Rate {
    pub num: u64,
    pub den: u64,
}

impl Rate {
    /// The rate `num / den`.
    pub fn new(num: u64, den: u64) -> (rate: Rate)
        ensures
            rate == (Rate { num, den }),
    {
        Rate { num, den }
    }

    /// The rate, but no less than a thousandth.
    pub open spec fn floored(self) -> Rate {
        if self.num == 0 || self.num * 1000 < self.den {
            Rate { num: 1, den: 1000 }
        } else {
            self
        }
    }

    /// The rate, but no less than a thousandth.
    pub fn at_least_a_thousandth(self) -> (rate: Rate)
        ensures
            rate == self.floored(),
            rate.num > 0,
    {
        if self.num == 0 || (self.num as u128) * 1000 < self.den as u128 {
            Rate { num: 1, den: 1000 }
        } else {
            self
        }
    }
}

/// `a + b`, held at the largest `u64`.
pub open spec fn sat_add(a: u64, b: u64) -> u64 {
    if a + b > u64::MAX {
        u64::MAX
    } else {
        (a + b) as u64
    }
}

/// `a - b`, held at zero.
pub open spec fn sat_sub(a: u64, b: u64) -> u64 {
    if a < b {
        0
    } else {
        (a - b) as u64
    }
}

/// `a * b`, held at the largest `u64`.
pub open spec fn sat_mul(a: u64, b: u64) -> u64 {
    if a * b > u64::MAX {
        u64::MAX
    } else {
        (a * b) as u64
    }
}

/// `n` held at the largest `u64`.
pub open spec fn clamp_u64(n: int) -> u64 {
    if n > u64::MAX {
        u64::MAX
    } else {
        n as u64
    }
}

/// The least integer that is not below `n / d`.
pub open spec fn ceil_div(n: int, d: int) -> int {
    (n + d - 1) / d
}

/// Time that `amount` takes at a rate per nanosecond, rounded up to whole
/// nanoseconds.
pub open spec fn time_at_rate(amount: u64, rate: Rate) -> u64 {
    clamp_u64(ceil_div(amount * rate.den, rate.num as int))
}

/// What is done in `elapsed` nanoseconds at a rate per nanosecond, rounded
/// down.
pub open spec fn done_at_rate(elapsed: u64, rate: Rate) -> u64 {
    if elapsed == 0 || rate.num == 0 {
        0
    } else if rate.den == 0 {
        u64::MAX
    } else {
        clamp_u64((elapsed * rate.num) / (rate.den as int))
    }
}

/// Multiplies, held at the largest `u64`.
pub fn saturating_mul(a: u64, b: u64) -> (r: u64)
    ensures
        r == sat_mul(a, b),
{
    match a.checked_mul(b) {
        Some(p) => p,
        None => u64::MAX,
    }
}

/// Time that `amount` takes at a positive rate, rounded up.
pub fn time_for(amount: u64, rate: Rate) -> (t: u64)
    requires
        rate.num > 0,
    ensures
        t == time_at_rate(amount, rate),
{
    proof {
        lemma_product_fits(amount, rate.den);
    }
    let scaled: u128 = amount as u128 * rate.den as u128;
    let q: u128 = (scaled + (rate.num as u128 - 1)) / rate.num as u128;
    if q > u64::MAX as u128 {
        u64::MAX
    } else {
        q as u64
    }
}

/// What is done in `elapsed` nanoseconds at a rate, rounded down.
pub fn done_in(elapsed: u64, rate: Rate) -> (w: u64)
    ensures
        w == done_at_rate(elapsed, rate),
{
    if elapsed == 0 || rate.num == 0 {
        return 0;
    }
    if rate.den == 0 {
        return u64::MAX;
    }
    proof {
        lemma_product_fits(elapsed, rate.num);
    }
    let q: u128 = (elapsed as u128 * rate.num as u128) / rate.den as u128;
    if q > u64::MAX as u128 {
        u64::MAX
    } else {
        q as u64
    }
}

/// Two factors of a word each leave room for another word beside their
/// product.
proof fn lemma_product_fits(a: u64, b: u64)
    ensures
        0 <= a * b <= u128::MAX - u64::MAX,
{
    assert(0 <= a * b <= u64::MAX * u64::MAX) by (nonlinear_arith)
        requires
            0 <= a <= u64::MAX,
            0 <= b <= u64::MAX,
    ;
}

/// `n` held at the largest `u128`.
pub open spec fn clamp_u128(n: int) -> u128 {
    if n > u128::MAX {
        u128::MAX
    } else {
        n as u128
    }
}

/// Thousandths of what `elapsed` makes at a rate, rounded down.
pub open spec fn thousandths_at_rate(elapsed: u64, rate: Rate) -> u128 {
    if elapsed == 0 || rate.num == 0 {
        0
    } else if rate.den == 0 {
        u128::MAX
    } else {
        clamp_u128((elapsed * rate.num * 1000) / (rate.den as int))
    }
}

/// Thousandths of what `elapsed` makes at a rate, rounded down.
pub fn thousandths_in(elapsed: u64, rate: Rate) -> (n: u128)
    ensures
        n == thousandths_at_rate(elapsed, rate),
{
    if elapsed == 0 || rate.num == 0 {
        return 0;
    }
    if rate.den == 0 {
        return u128::MAX;
    }
    proof {
        lemma_product_fits(elapsed, rate.num);
    }
    let product: u128 = elapsed as u128 * rate.num as u128;
    let den: u128 = rate.den as u128;
    let whole: u128 = product / den;
    let part: u128 = product % den;
    let rest: u128 = (part * 1000) / den;
    proof {
        let p = product as int;
        let d = den as int;
        vstd::arithmetic::div_mod::lemma_fundamental_div_mod(p, d);
        assert(p * 1000 == d * (whole * 1000) + part * 1000) by (nonlinear_arith)
            requires
                p == d * whole + part,
        ;
        vstd::arithmetic::div_mod::lemma_hoist_over_denominator(
            part * 1000,
            whole * 1000,
            d as nat,
        );
        assert(d * (whole * 1000) == (whole * 1000) * d) by (nonlinear_arith);
        assert((p * 1000) / d == whole * 1000 + rest);
    }
    match whole.checked_mul(1000) {
        Some(scaled) => scaled.saturating_add(rest),
        None => u128::MAX,
    }
}

/// An exact quotient of two natural numbers.
#[derive(Debug, Clone, Copy, PartialEq, Eq, Structural)]
pub struct Ratio {
    pub num: u128,
    pub den: u128,
}

impl Ratio {
    /// The quotient `num / den`, and zero where `den` is zero.
    pub open spec fn of(num: u128, den: u128) -> Ratio {
        if den == 0 {
            Ratio { num: 0, den: 1 }
        } else {
            Ratio { num, den }
        }
    }

    /// The quotient `num / den`, and zero where `den` is zero.
    pub fn new(num: u128, den: u128) -> (r: Ratio)
        ensures
            r == Ratio::of(num, den),
            r.den > 0,
    {
        if den == 0 {
            Ratio { num: 0, den: 1 }
        } else {
            Ratio { num, den }
        }
    }
}

/// The time for an amount is the least one in which the rate makes the amount,
/// held at the largest `u64`.
pub proof fn law_time_is_the_least(amount: u64, rate: Rate, t: int)
    requires
        rate.num > 0,
    ensures
        time_at_rate(amount, rate) * rate.num >= amount * rate.den || time_at_rate(amount, rate)
            == u64::MAX,
        t >= 0 && t * rate.num >= amount * rate.den ==> time_at_rate(amount, rate) <= t,
{
    let num = rate.num as int;
    let n = amount * rate.den;
    assert(n >= 0) by (nonlinear_arith)
        requires
            n == amount * rate.den,
    ;
    let q = (n + num - 1) / num;
    assert(q >= 0 && q * num >= n && q * num <= n + num - 1) by (nonlinear_arith)
        requires
            n >= 0,
            num > 0,
            q == (n + num - 1) / num,
    ;
    if t >= 0 && t * num >= n {
        assert(q <= t) by (nonlinear_arith)
            requires
                q * num <= n + num - 1,
                t * num >= n,
                num > 0,
        ;
    }
}

/// What is done in a time is the most that the rate makes in it, held at the
/// largest `u64`.
pub proof fn law_work_done_is_the_most(elapsed: u64, rate: Rate, w: u64)
    requires
        rate.den > 0,
    ensures
        done_at_rate(elapsed, rate) * rate.den <= elapsed * rate.num,
        w * rate.den <= elapsed * rate.num ==> w <= done_at_rate(elapsed, rate),
{
    let den = rate.den as int;
    let n = elapsed * rate.num;
    assert(n >= 0 && (elapsed == 0 || rate.num == 0 ==> n == 0)) by (nonlinear_arith)
        requires
            n == elapsed * rate.num,
    ;
    let q = n / den;
    assert(q >= 0 && q * den <= n && n < q * den + den) by (nonlinear_arith)
        requires
            n >= 0,
            den > 0,
            q == n / den,
    ;
    let d = done_at_rate(elapsed, rate);
    assert(d <= q);
    assert(d * den <= n) by (nonlinear_arith)
        requires
            0 <= d <= q,
            q * den <= n,
            den > 0,
    ;
    if w * den <= n {
        assert(w <= q) by (nonlinear_arith)
            requires
                w * den <= n,
                n < q * den + den,
                den > 0,
        ;
    }
}

/// Work that is done in the time it takes is never less than the work asked
/// for: rounding the time up loses nothing. At an infinite rate work takes no
/// time, and in no time nothing counts as done.
pub proof fn law_time_covers_amount(amount: u64, rate: Rate)
    requires
        rate.num > 0,
        ceil_div(amount * rate.den, rate.num as int) <= u64::MAX,
        rate.den > 0,
    ensures
        done_at_rate(time_at_rate(amount, rate), rate) >= amount,
{
    let t = time_at_rate(amount, rate) as int;
    let num = rate.num as int;
    let den = rate.den as int;
    let n = amount * den;
    assert(n >= 0) by (nonlinear_arith)
        requires
            n == amount * den,
            den > 0,
    ;
    assert(t >= 0 && t * num >= n) by (nonlinear_arith)
        requires
            n >= 0,
            t == (n + num - 1) / num,
            num > 0,
    ;
    assert((t * num) / den >= amount) by (nonlinear_arith)
        requires
            t * num >= amount * den,
            den > 0,
    ;
    if t == 0 {
        assert(amount == 0) by (nonlinear_arith)
            requires
                t == 0,
                t * num >= amount * den,
                den > 0,
        ;
    }
}

} // verus!

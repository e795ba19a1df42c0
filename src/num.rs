//! Shared numeric limits, rounding helpers and arithmetic lemmas.

use vstd::prelude::*;
use vstd::arithmetic::div_mod::{lemma_fundamental_div_mod, lemma_mod_bound};

verus! {

/// Largest magnitude a price or other indicator sample may have.
pub const MAX_PRICE: i64 = 281_474_976_710_656;

/// Largest period an indicator accepts.
pub const MAX_PERIOD: usize = 65_536;

/// 100% expressed in basis points.
pub const HUNDRED_PERCENT: i64 = 10_000;

/// Why an indicator or engine could not be built.
#[derive(Debug, Clone, Copy, PartialEq, Eq, Structural)]
pub enum ConfigError {
    /// A period, window or multiplier was zero.
    ZeroPeriod,
    /// A period or window was larger than `MAX_PERIOD`.
    PeriodTooLarge,
    /// The stop multiplier's denominator was not positive, or the
    /// multiplier was negative or above `MAX_STOP_MULTIPLE`.
    BadMultiplier,
}

/// Largest stop multiplier (a multiple of the ATR) accepted.
pub const MAX_STOP_MULTIPLE: i64 = 16_384;

/// A sample is within the accepted magnitude.
pub open spec fn in_range(x: int) -> bool {
    -(MAX_PRICE as int) <= x <= MAX_PRICE as int
}

/// Every element of `xs` is within the accepted magnitude.
pub open spec fn all_in_range(xs: Seq<int>) -> bool {
    forall|i: int| 0 <= i < xs.len() ==> #[trigger] in_range(xs[i])
}

/// A period is accepted by the constructors.
pub open spec fn valid_period(p: int) -> bool {
    1 <= p <= MAX_PERIOD as int
}

/// The verdict a constructor gives on a period.
pub open spec fn period_check(p: int) -> Result<(), ConfigError> {
    if p == 0 {
        Err(ConfigError::ZeroPeriod)
    } else if p > MAX_PERIOD as int {
        Err(ConfigError::PeriodTooLarge)
    } else {
        Ok(())
    }
}

/// Sum of a sequence of integers.
pub open spec fn sum_of(xs: Seq<int>) -> int
    decreases xs.len(),
{
    if xs.len() == 0 {
        0
    } else {
        sum_of(xs.drop_last()) + xs.last()
    }
}

/// Division of `a` by a positive `b`, rounded away from zero.
pub open spec fn div_away(a: int, b: int) -> int {
    if a >= 0 {
        (a + b - 1) / b
    } else {
        -((-a + b - 1) / b)
    }
}

/// Wilder smoothing: `(prev * (p - 1) + x) / p`, rounded down.
pub open spec fn wilder(prev: int, x: int, p: int) -> int {
    (prev * (p - 1) + x) / p
}

/// `Some` of an executable integer, as a mathematical integer.
pub open spec fn opt_int(o: Option<i64>) -> Option<int> {
    match o {
        Some(v) => Some(v as int),
        None => None,
    }
}

/// The quotient of floor division lies between the two nearest multiples.
pub proof fn lemma_div_bounds(a: int, b: int)
    requires
        b > 0,
    ensures
        b * (a / b) <= a < b * (a / b) + b,
{
    lemma_fundamental_div_mod(a, b);
    lemma_mod_bound(a, b);
}

/// Floor division keeps a value that lies between `b * lo` and `b * hi`
/// between `lo` and `hi`.
pub proof fn lemma_div_within(a: int, b: int, lo: int, hi: int)
    requires
        b > 0,
        b * lo <= a <= b * hi,
    ensures
        lo <= a / b <= hi,
{
    lemma_div_bounds(a, b);
    let q = a / b;
    assert(lo <= q) by (nonlinear_arith)
        requires
            b > 0,
            b * lo <= a,
            a < b * q + b,
    ;
    assert(q <= hi) by (nonlinear_arith)
        requires
            b > 0,
            a <= b * hi,
            b * q <= a,
    ;
}

/// Adding a multiple of the divisor shifts the quotient by that multiple.
pub proof fn lemma_div_shift(a: int, b: int, k: int)
    requires
        b > 0,
    ensures
        (a + b * k) / b == a / b + k,
{
    lemma_div_bounds(a, b);
    lemma_div_bounds(a + b * k, b);
    let q1 = a / b;
    let q2 = (a + b * k) / b;
    assert(q2 == q1 + k) by (nonlinear_arith)
        requires
            b > 0,
            b * q1 <= a < b * q1 + b,
            b * q2 <= a + b * k < b * q2 + b,
    ;
}

/// Floor division by `b` stays below `hi + 1` when `a` does after scaling.
pub proof fn lemma_div_upper(a: int, b: int, hi: int)
    requires
        b > 0,
        a < b * (hi + 1),
    ensures
        a / b <= hi,
{
    lemma_div_bounds(a, b);
    let q = a / b;
    assert(q <= hi) by (nonlinear_arith)
        requires
            b > 0,
            a < b * (hi + 1),
            b * q <= a,
    ;
}

/// Rounding a step of size `2 * d / (p + 1)` away from zero never
/// overshoots `d`, and moves by at least one whenever `d` is not zero.
pub proof fn lemma_div_away_step(d: int, p: int)
    requires
        p >= 1,
    ensures
        d >= 0 ==> 0 <= div_away(2 * d, p + 1) <= d,
        d < 0 ==> d <= div_away(2 * d, p + 1) < 0,
        d > 0 ==> div_away(2 * d, p + 1) >= 1,
{
    let b = p + 1;
    let n = if d >= 0 { d } else { -d };
    let a = 2 * n + b - 1;
    assert(a < b * (n + 1)) by (nonlinear_arith)
        requires
            p >= 1,
            n >= 0,
            b == p + 1,
            a == 2 * n + b - 1,
    ;
    lemma_div_upper(a, b, n);
    assert(b * 0 <= a <= b * a) by (nonlinear_arith)
        requires
            b >= 2,
            a >= 0,
    ;
    lemma_div_within(a, b, 0, a);
    if n > 0 {
        assert(b * 1 <= a);
        lemma_div_within(a, b, 1, a);
    }
}

/// Floor division of `a` by `b`, for `a` within `b` times the sample range.
pub fn floor_div(a: i128, b: i128) -> (r: i64)
    requires
        0 < b <= MAX_PERIOD as int,
        b * (-(MAX_PRICE as int)) <= a <= b * (MAX_PRICE as int),
    ensures
        r as int == a as int / b as int,
        in_range(r as int),
{
    let m = MAX_PRICE as i128;
    proof {
        lemma_div_within(a as int, b as int, -(MAX_PRICE as int), MAX_PRICE as int);
        lemma_div_shift(a as int, b as int, m as int);
        assert(0 <= b * m <= MAX_PERIOD as int * MAX_PRICE as int) by (nonlinear_arith)
            requires
                0 < b <= MAX_PERIOD as int,
                m == MAX_PRICE as int,
        ;
        assert(b * (-(MAX_PRICE as int)) == -(b * m)) by (nonlinear_arith)
            requires
                m == MAX_PRICE as int,
        ;
        assert(b * (2 * m) == 2 * (b * m)) by (nonlinear_arith);
        lemma_div_within(a + b * m, b as int, 0, 2 * m);
    }
    let q = (a + b * m) / b;
    (q - m) as i64
}

/// `a / b` rounded away from zero, for `b > 0` and `a` of moderate size.
pub fn div_away_exec(a: i128, b: i128) -> (r: i128)
    requires
        0 < b <= MAX_PERIOD as int + 1,
        -4 * (MAX_PRICE as int) <= a <= 4 * (MAX_PRICE as int),
    ensures
        r as int == div_away(a as int, b as int),
{
    if a >= 0 {
        (a + b - 1) / b
    } else {
        -((-a + b - 1) / b)
    }
}

/// The verdict on a period, computed.
pub fn check_period(p: usize) -> (r: Result<(), ConfigError>)
    ensures
        r == period_check(p as int),
{
    if p == 0 {
        Err(ConfigError::ZeroPeriod)
    } else if p > MAX_PERIOD {
        Err(ConfigError::PeriodTooLarge)
    } else {
        Ok(())
    }
}

} // verus!

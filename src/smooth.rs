//! Wilder smoothing over a stream of non-negative levels, the averaging
//! step shared by RSI, ATR and ADX.

use vstd::prelude::*;
use crate::num::{
    check_period, lemma_div_within, opt_int, period_check, sum_of, valid_period, wilder,
    ConfigError, MAX_PERIOD, MAX_PRICE,
};

verus! {

/// A non-negative value no larger than the largest price.
pub open spec fn is_level(x: int) -> bool {
    0 <= x <= MAX_PRICE as int
}

/// Whether `x` is a level: a price the indicators accept.
pub fn is_price(x: i64) -> (r: bool)
    ensures
        r == is_level(x as int),
{
    0 <= x && x <= MAX_PRICE
}

/// Every element of `xs` is a level.
pub open spec fn all_levels(xs: Seq<int>) -> bool {
    forall|i: int| 0 <= i < xs.len() ==> #[trigger] is_level(xs[i])
}

/// Wilder's average of period `p` over `xs`: unavailable before `p` samples,
/// seeded with the (floored) mean of the first `p`, then
/// `avg' = (avg * (p - 1) + x) / p` for each later sample.
pub open spec fn wilder_of(p: int, xs: Seq<int>) -> Option<int>
    decreases xs.len(),
{
    if p < 1 || xs.len() < p {
        None
    } else if xs.len() == p {
        Some(sum_of(xs) / p)
    } else {
        match wilder_of(p, xs.drop_last()) {
            Some(v) => Some(wilder(v, xs.last(), p)),
            None => None,
        }
    }
}

/// Wilder's average rounded up rather than down: the seed is the mean of
/// the first `p` samples rounded up, and each later step is
/// `(avg * (p - 1) + x) / p` rounded up. A positive sample therefore never
/// vanishes from the average while the period is at least 2.
pub open spec fn wilder_up_of(p: int, xs: Seq<int>) -> Option<int>
    decreases xs.len(),
{
    if p < 1 || xs.len() < p {
        None
    } else if xs.len() == p {
        Some((sum_of(xs) + p - 1) / p)
    } else {
        match wilder_up_of(p, xs.drop_last()) {
            Some(v) => Some((v * (p - 1) + xs.last() + p - 1) / p),
            None => None,
        }
    }
}

/// The average with the chosen rounding.
pub open spec fn smoothed_of(p: int, xs: Seq<int>, round_up: bool) -> Option<int> {
    if round_up {
        wilder_up_of(p, xs)
    } else {
        wilder_of(p, xs)
    }
}

/// The rounded-up average is available exactly from the `p`-th sample on.
pub proof fn lemma_wilder_up_available(p: int, xs: Seq<int>)
    requires
        p >= 1,
    ensures
        wilder_up_of(p, xs) is Some <==> xs.len() >= p,
    decreases xs.len(),
{
    if xs.len() > p {
        lemma_wilder_up_available(p, xs.drop_last());
    }
}

/// Rounding up a quotient of a value between `p * lo` and `p * hi` keeps
/// it between `lo` and `hi`.
pub proof fn lemma_ceil_within(a: int, p: int, lo: int, hi: int)
    requires
        p >= 1,
        p * lo <= a <= p * hi,
    ensures
        lo <= (a + p - 1) / p <= hi,
{
    assert(p * lo <= a + p - 1) by (nonlinear_arith)
        requires
            p >= 1,
            p * lo <= a,
    ;
    assert(a + p - 1 < p * (hi + 1)) by (nonlinear_arith)
        requires
            p >= 1,
            a <= p * hi,
    ;
    crate::num::lemma_div_upper(a + p - 1, p, hi);
    crate::num::lemma_div_bounds(a + p - 1, p);
    let q = (a + p - 1) / p;
    assert(lo <= q) by (nonlinear_arith)
        requires
            p >= 1,
            p * lo <= a + p - 1,
            a + p - 1 < p * q + p,
    ;
}

/// A rounded-up quotient of a non-negative value is 0 exactly when the
/// value is.
pub proof fn lemma_ceil_zero(a: int, p: int)
    requires
        p >= 1,
        a >= 0,
    ensures
        (a + p - 1) / p == 0 <==> a == 0,
{
    if a == 0 {
        lemma_ceil_nonneg(0, p);
        crate::num::lemma_div_upper(p - 1, p, 0);
    } else {
        crate::num::lemma_div_bounds(a + p - 1, p);
        let q = (a + p - 1) / p;
        assert(q >= 1) by (nonlinear_arith)
            requires
                p >= 1,
                a >= 1,
                a + p - 1 < p * q + p,
        ;
    }
}

/// The rounded-up average of values in `[lo, hi]` stays in `[lo, hi]`.
pub proof fn lemma_wilder_up_within(p: int, xs: Seq<int>, lo: int, hi: int)
    requires
        p >= 1,
        forall|i: int| 0 <= i < xs.len() ==> lo <= #[trigger] xs[i] <= hi,
    ensures
        wilder_up_of(p, xs) matches Some(v) ==> lo <= v <= hi,
    decreases xs.len(),
{
    if xs.len() == p {
        lemma_sum_between(xs, lo, hi);
        lemma_ceil_within(sum_of(xs), p, lo, hi);
    } else if xs.len() > p {
        let init = xs.drop_last();
        assert forall|i: int| 0 <= i < init.len() implies lo <= #[trigger] init[i] <= hi by {
            assert(init[i] == xs[i]);
        }
        lemma_wilder_up_within(p, init, lo, hi);
        lemma_wilder_up_available(p, init);
        let v = wilder_up_of(p, init).unwrap();
        let x = xs[xs.len() - 1];
        assert(lo <= x <= hi);
        assert(p * lo <= v * (p - 1) + x <= p * hi) by (nonlinear_arith)
            requires
                p >= 1,
                lo <= v <= hi,
                lo <= x <= hi,
        ;
        lemma_ceil_within(v * (p - 1) + x, p, lo, hi);
    }
}

/// A rounded-up quotient of a non-negative value is non-negative.
pub proof fn lemma_ceil_nonneg(a: int, p: int)
    requires
        p >= 1,
        a >= 0,
    ensures
        (a + p - 1) / p >= 0,
{
    crate::num::lemma_div_bounds(a + p - 1, p);
    let q = (a + p - 1) / p;
    assert(q >= 0) by (nonlinear_arith)
        requires
            p >= 1,
            a >= 0,
            a + p - 1 < p * q + p,
    ;
}

/// The rounded-up average of non-negative samples is non-negative.
pub proof fn lemma_wilder_up_nonneg(p: int, xs: Seq<int>)
    requires
        p >= 1,
        forall|i: int| 0 <= i < xs.len() ==> #[trigger] xs[i] >= 0,
    ensures
        wilder_up_of(p, xs) matches Some(v) ==> v >= 0,
    decreases xs.len(),
{
    if xs.len() == p {
        lemma_sum_zero(xs);
        lemma_ceil_nonneg(sum_of(xs), p);
    } else if xs.len() > p {
        let init = xs.drop_last();
        assert forall|i: int| 0 <= i < init.len() implies #[trigger] init[i] >= 0 by {
            assert(init[i] == xs[i]);
        }
        lemma_wilder_up_nonneg(p, init);
        lemma_wilder_up_available(p, init);
        let v = wilder_up_of(p, init).unwrap();
        let x = xs[xs.len() - 1];
        assert(v * (p - 1) + x >= 0) by (nonlinear_arith)
            requires
                p >= 1,
                v >= 0,
                x >= 0,
        ;
        lemma_ceil_nonneg(v * (p - 1) + x, p);
    }
}

/// A sum of non-negative values is 0 exactly when every value is.
pub proof fn lemma_sum_zero(xs: Seq<int>)
    requires
        forall|i: int| 0 <= i < xs.len() ==> #[trigger] xs[i] >= 0,
    ensures
        sum_of(xs) >= 0,
        sum_of(xs) == 0 <==> forall|i: int| 0 <= i < xs.len() ==> #[trigger] xs[i] == 0,
    decreases xs.len(),
{
    if xs.len() > 0 {
        let init = xs.drop_last();
        assert forall|i: int| 0 <= i < init.len() implies #[trigger] init[i] >= 0 by {
            assert(init[i] == xs[i]);
        }
        lemma_sum_zero(init);
        assert(xs[xs.len() - 1] >= 0);
        if sum_of(xs) == 0 {
            assert forall|i: int| 0 <= i < xs.len() implies #[trigger] xs[i] == 0 by {
                if i < init.len() {
                    assert(init[i] == xs[i]);
                }
            }
        }
        if forall|i: int| 0 <= i < xs.len() ==> #[trigger] xs[i] == 0 {
            assert forall|i: int| 0 <= i < init.len() implies #[trigger] init[i] == 0 by {
                assert(init[i] == xs[i]);
            }
            assert(xs[xs.len() - 1] == 0);
        }
    }
}

/// With a period of at least 2, the rounded-up average of non-negative
/// samples is 0 exactly when every sample is 0.
pub proof fn lemma_wilder_up_zero(p: int, xs: Seq<int>)
    requires
        p >= 2,
        xs.len() >= p,
        forall|i: int| 0 <= i < xs.len() ==> #[trigger] xs[i] >= 0,
    ensures
        wilder_up_of(p, xs) matches Some(v) && (v == 0 <==> forall|i: int|
            0 <= i < xs.len() ==> #[trigger] xs[i] == 0),
    decreases xs.len(),
{
    lemma_wilder_up_available(p, xs);
    if xs.len() == p {
        lemma_sum_zero(xs);
        lemma_ceil_zero(sum_of(xs), p);
    } else {
        let init = xs.drop_last();
        assert forall|i: int| 0 <= i < init.len() implies #[trigger] init[i] >= 0 by {
            assert(init[i] == xs[i]);
        }
        lemma_wilder_up_zero(p, init);
        let v = wilder_up_of(p, init).unwrap();
        lemma_wilder_up_nonneg(p, init);
        let x = xs[xs.len() - 1];
        assert(x >= 0);
        let a = v * (p - 1) + x;
        assert(a >= 0 && (a == 0 <==> (v == 0 && x == 0))) by (nonlinear_arith)
            requires
                p >= 2,
                v >= 0,
                x >= 0,
                a == v * (p - 1) + x,
        ;
        lemma_ceil_zero(a, p);
        if forall|i: int| 0 <= i < xs.len() ==> #[trigger] xs[i] == 0 {
            assert forall|i: int| 0 <= i < init.len() implies #[trigger] init[i] == 0 by {
                assert(init[i] == xs[i]);
            }
        }
        if v == 0 && x == 0 {
            assert forall|i: int| 0 <= i < xs.len() implies #[trigger] xs[i] == 0 by {
                if i < init.len() {
                    assert(init[i] == xs[i]);
                }
            }
        }
    }
}

/// The average is available exactly from the `p`-th sample on.
pub proof fn lemma_wilder_available(p: int, xs: Seq<int>)
    requires
        p >= 1,
    ensures
        wilder_of(p, xs) is Some <==> xs.len() >= p,
    decreases xs.len(),
{
    if xs.len() > p {
        lemma_wilder_available(p, xs.drop_last());
    }
}

/// A sum of values in `[lo, hi]` lies between `len * lo` and `len * hi`.
pub proof fn lemma_sum_between(xs: Seq<int>, lo: int, hi: int)
    requires
        forall|i: int| 0 <= i < xs.len() ==> lo <= #[trigger] xs[i] <= hi,
    ensures
        xs.len() * lo <= sum_of(xs) <= xs.len() * hi,
    decreases xs.len(),
{
    if xs.len() > 0 {
        let init = xs.drop_last();
        assert forall|i: int| 0 <= i < init.len() implies lo <= #[trigger] init[i] <= hi by {
            assert(init[i] == xs[i]);
        }
        lemma_sum_between(init, lo, hi);
        assert(lo <= xs[xs.len() - 1] <= hi);
        assert(xs.len() * lo == init.len() * lo + lo && xs.len() * hi == init.len() * hi + hi)
            by (nonlinear_arith)
            requires
                xs.len() == init.len() + 1,
        ;
    }
}

/// Wilder's average of values in `[lo, hi]` stays in `[lo, hi]`.
pub proof fn lemma_wilder_within(p: int, xs: Seq<int>, lo: int, hi: int)
    requires
        p >= 1,
        forall|i: int| 0 <= i < xs.len() ==> lo <= #[trigger] xs[i] <= hi,
    ensures
        wilder_of(p, xs) matches Some(v) ==> lo <= v <= hi,
    decreases xs.len(),
{
    if xs.len() == p {
        lemma_sum_between(xs, lo, hi);
        lemma_div_within(sum_of(xs), p, lo, hi);
    } else if xs.len() > p {
        let init = xs.drop_last();
        assert forall|i: int| 0 <= i < init.len() implies lo <= #[trigger] init[i] <= hi by {
            assert(init[i] == xs[i]);
        }
        lemma_wilder_within(p, init, lo, hi);
        lemma_wilder_available(p, init);
        let v = wilder_of(p, init).unwrap();
        let x = xs[xs.len() - 1];
        assert(lo <= x <= hi);
        assert(p * lo <= v * (p - 1) + x <= p * hi) by (nonlinear_arith)
            requires
                p >= 1,
                lo <= v <= hi,
                lo <= x <= hi,
        ;
        lemma_div_within(v * (p - 1) + x, p, lo, hi);
    }
}

/// Levels stay levels under Wilder's average.
pub proof fn lemma_wilder_level(p: int, xs: Seq<int>)
    requires
        p >= 1,
        all_levels(xs),
    ensures
        wilder_of(p, xs) matches Some(v) ==> is_level(v),
{
    assert forall|i: int| 0 <= i < xs.len() implies 0 <= #[trigger] xs[i] <= MAX_PRICE as int by {
        assert(is_level(xs[i]));
    }
    lemma_wilder_within(p, xs, 0, MAX_PRICE as int);
}

/// Wilder's running average over a stream of levels.
pub struct Wilder {
    pub period: usize,
    /// Whether averages are rounded up rather than down.
    pub round_up: bool,
    /// Samples seen, up to `period`.
    pub count: usize,
    /// Sum of the samples seen while warming up.
    pub sum: i128,
    pub value: Option<i64>,
    /// Every sample seen so far.
    pub samples: Ghost<Seq<int>>,
}

/// Levels stay levels under either rounding.
pub proof fn lemma_smoothed_level(p: int, xs: Seq<int>, up: bool)
    requires
        p >= 1,
        all_levels(xs),
    ensures
        smoothed_of(p, xs, up) matches Some(v) ==> is_level(v),
        smoothed_of(p, xs, up) is Some <==> xs.len() >= p,
{
    lemma_wilder_level(p, xs);
    lemma_wilder_available(p, xs);
    lemma_wilder_up_available(p, xs);
    assert forall|i: int| 0 <= i < xs.len() implies 0 <= #[trigger] xs[i] <= MAX_PRICE as int by {
        assert(is_level(xs[i]));
    }
    lemma_wilder_up_within(p, xs, 0, MAX_PRICE as int);
}

impl Wilder {
    /// The state is consistent with the samples seen.
    pub open spec fn wf(&self) -> bool {
        &&& valid_period(self.period as int)
        &&& all_levels(self.samples@)
        &&& self.count as int == if self.samples@.len() < self.period {
            self.samples@.len() as int
        } else {
            self.period as int
        }
        &&& (self.count < self.period ==> self.sum as int == sum_of(self.samples@))
        &&& opt_int(self.value) == smoothed_of(self.period as int, self.samples@, self.round_up)
    }

    /// A fresh average of the given period, rounded down; a period of zero
    /// or above `MAX_PERIOD` is refused.
    pub fn new(period: usize) -> (r: Result<Wilder, ConfigError>)
        ensures
            match r {
                Ok(w) => period_check(period as int) is Ok && w.wf() && w.period == period
                    && !w.round_up && w.samples@ == Seq::<int>::empty(),
                Err(err) => period_check(period as int) == Err::<(), ConfigError>(err),
            },
    {
        Wilder::with_rounding(period, false)
    }

    /// A fresh average of the given period, rounded up or down; a period
    /// of zero or above `MAX_PERIOD` is refused.
    pub fn with_rounding(period: usize, round_up: bool) -> (r: Result<Wilder, ConfigError>)
        ensures
            match r {
                Ok(w) => period_check(period as int) is Ok && w.wf() && w.period == period
                    && w.round_up == round_up && w.samples@ == Seq::<int>::empty(),
                Err(err) => period_check(period as int) == Err::<(), ConfigError>(err),
            },
    {
        match check_period(period) {
            Err(e) => Err(e),
            Ok(()) => Ok(Wilder {
                period,
                round_up,
                count: 0,
                sum: 0,
                value: None,
                samples: Ghost(Seq::empty()),
            }),
        }
    }

    /// Feeds one level and returns the average after it.
    pub fn update(&mut self, x: i64) -> (r: Option<i64>)
        requires
            old(self).wf(),
            is_level(x as int),
        ensures
            final(self).wf(),
            final(self).period == old(self).period,
            final(self).round_up == old(self).round_up,
            final(self).samples@ == old(self).samples@.push(x as int),
            r == final(self).value,
    {
        let ghost old_xs = self.samples@;
        let ghost xs = old_xs.push(x as int);
        let ghost p = self.period as int;
        assert(xs.drop_last() =~= old_xs);
        assert(all_levels(xs)) by {
            assert forall|i: int| 0 <= i < xs.len() implies #[trigger] is_level(xs[i]) by {
                if i < old_xs.len() {
                    assert(xs[i] == old_xs[i]);
                }
            }
        }
        assert forall|i: int| 0 <= i < xs.len() implies 0 <= #[trigger] xs[i]
            <= MAX_PRICE as int by {
            assert(is_level(xs[i]));
        }
        proof {
            lemma_smoothed_level(p, xs, self.round_up);
            lemma_smoothed_level(p, old_xs, self.round_up);
        }
        if self.count < self.period {
            proof {
                lemma_sum_between(xs, 0, MAX_PRICE as int);
                let n = xs.len() as int;
                assert(n * (MAX_PRICE as int) <= MAX_PERIOD as int * (MAX_PRICE as int))
                    by (nonlinear_arith)
                    requires
                        0 <= n <= MAX_PERIOD as int,
                ;
            }
            self.sum = self.sum + x as i128;
            self.count = self.count + 1;
            if self.count == self.period {
                let p = self.period as i128;
                let q = if self.round_up {
                    (self.sum + p - 1) / p
                } else {
                    self.sum / p
                };
                self.value = Some(q as i64);
            }
        } else {
            let v = self.value.unwrap();
            let p = self.period as i128;
            proof {
                assert(0 <= v * (p - 1) <= MAX_PRICE as int * MAX_PERIOD as int)
                    by (nonlinear_arith)
                    requires
                        0 <= v <= MAX_PRICE as int,
                        1 <= p <= MAX_PERIOD as int,
                ;
            }
            let a = v as i128 * (p - 1) + x as i128;
            let q = if self.round_up {
                (a + p - 1) / p
            } else {
                a / p
            };
            self.value = Some(q as i64);
        }
        self.samples = Ghost(xs);
        self.value
    }
}

} // verus!

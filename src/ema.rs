//! Exponential moving average.

use vstd::prelude::*;
use crate::smooth::lemma_sum_between;
use crate::num::{
    all_in_range, check_period, div_away, div_away_exec, floor_div, in_range, lemma_div_away_step,
    lemma_div_within, opt_int, MAX_PERIOD, period_check, sum_of, valid_period, ConfigError, MAX_PRICE,
};

verus! {

/// One smoothing step: `ema + (x - ema) * 2 / (p + 1)`, the correction
/// rounded away from zero so that the average always reaches a constant input.
pub open spec fn ema_step(e: int, x: int, p: int) -> int {
    e + div_away(2 * (x - e), p + 1)
}

/// The exponential moving average of period `p` over the samples `xs`:
/// unavailable before `p` samples, seeded with the (floored) mean of the
/// first `p`, then smoothed one sample at a time.
pub open spec fn ema_of(p: int, xs: Seq<int>) -> Option<int>
    decreases xs.len(),
{
    if p < 1 || xs.len() < p {
        None
    } else if xs.len() == p {
        Some(sum_of(xs) / p)
    } else {
        match ema_of(p, xs.drop_last()) {
            Some(e) => Some(ema_step(e, xs.last(), p)),
            None => None,
        }
    }
}

/// A sum of in-range samples is within `len` times the sample range.
pub proof fn lemma_sum_in_range(xs: Seq<int>)
    requires
        all_in_range(xs),
    ensures
        xs.len() * (-(MAX_PRICE as int)) <= sum_of(xs) <= xs.len() * (MAX_PRICE as int),
{
    assert forall|i: int| 0 <= i < xs.len() implies -(MAX_PRICE as int) <= #[trigger] xs[i]
        <= MAX_PRICE as int by {
        assert(in_range(xs[i]));
    }
    lemma_sum_between(xs, -(MAX_PRICE as int), MAX_PRICE as int);
}

/// The average of in-range samples is in range.
pub proof fn lemma_ema_in_range(p: int, xs: Seq<int>)
    requires
        p >= 1,
        all_in_range(xs),
    ensures
        ema_of(p, xs) matches Some(e) ==> in_range(e),
{
    assert forall|i: int| 0 <= i < xs.len() implies -(MAX_PRICE as int) <= #[trigger] xs[i]
        <= MAX_PRICE as int by {
        assert(in_range(xs[i]));
    }
    lemma_ema_within(p, xs, -(MAX_PRICE as int), MAX_PRICE as int);
}

/// The average is available exactly from the `p`-th sample on.
pub proof fn lemma_ema_available(p: int, xs: Seq<int>)
    requires
        p >= 1,
    ensures
        ema_of(p, xs) is Some <==> xs.len() >= p,
    decreases xs.len(),
{
    if xs.len() > p {
        lemma_ema_available(p, xs.drop_last());
    }
}

/// The average of samples in `[lo, hi]` stays in `[lo, hi]`.
pub proof fn lemma_ema_within(p: int, xs: Seq<int>, lo: int, hi: int)
    requires
        p >= 1,
        forall|i: int| 0 <= i < xs.len() ==> lo <= #[trigger] xs[i] <= hi,
    ensures
        ema_of(p, xs) matches Some(e) ==> lo <= e <= hi,
    decreases xs.len(),
{
    if xs.len() == p {
        lemma_sum_between(xs, lo, hi);
        assert(p * lo <= sum_of(xs) <= p * hi);
        lemma_div_within(sum_of(xs), p, lo, hi);
    } else if xs.len() > p {
        let init = xs.drop_last();
        assert forall|i: int| 0 <= i < init.len() implies lo <= #[trigger] init[i] <= hi by {
            assert(init[i] == xs[i]);
        }
        lemma_ema_within(p, init, lo, hi);
        lemma_ema_available(p, init);
        let e = ema_of(p, init).unwrap();
        assert(lo <= xs[xs.len() - 1] <= hi);
        lemma_div_away_step(xs.last() - e, p);
    }
}

/// Once available, feeding the average the value `v` never moves it further
/// from `v`, and strictly closer whenever it is not already `v`: fed a
/// constant, the average converges to it.
pub proof fn lemma_ema_converges(p: int, xs: Seq<int>, v: int)
    requires
        p >= 1,
        xs.len() >= p,
    ensures
        ema_of(p, xs.push(v)) matches Some(e1) && ema_of(p, xs) matches Some(e0) && (
        if e0 == v { e1 == v } else if e0 < v { e0 < e1 <= v } else { v <= e1 < e0 }),
{
    lemma_ema_available(p, xs);
    let ys = xs.push(v);
    assert(ys.drop_last() =~= xs);
    let e0 = ema_of(p, xs).unwrap();
    lemma_div_away_step(v - e0, p);
}

/// `k` copies of `v`.
pub open spec fn repeat(v: int, k: nat) -> Seq<int> {
    Seq::new(k, |i: int| v)
}

/// Fed the constant `v` for `k` more samples after warm-up, the average is
/// at least `k` closer to `v` or equal to it: after `|ema - v|` constant
/// samples it is exactly `v`, and it stays there.
pub proof fn lemma_ema_reaches(p: int, xs: Seq<int>, v: int, k: nat)
    requires
        p >= 1,
        xs.len() >= p,
    ensures
        ema_of(p, xs + repeat(v, k)) matches Some(e1) && ema_of(p, xs) matches Some(e0) && {
            let d0 = if e0 >= v { e0 - v } else { v - e0 };
            let d1 = if e1 >= v { e1 - v } else { v - e1 };
            &&& d1 <= d0
            &&& (d1 == 0 || d1 <= d0 - k)
            &&& (e0 <= v ==> e1 <= v)
            &&& (e0 >= v ==> e1 >= v)
        },
    decreases k,
{
    lemma_ema_available(p, xs);
    if k == 0 {
        assert(xs + repeat(v, 0) =~= xs);
    } else {
        let ys = xs + repeat(v, (k - 1) as nat);
        lemma_ema_reaches(p, xs, v, (k - 1) as nat);
        assert(xs + repeat(v, k) =~= ys.push(v));
        lemma_ema_converges(p, ys, v);
    }
}

/// Exponential moving average over a stream of samples.
pub struct Ema {
    pub period: usize,
    /// Samples seen, up to `period`.
    pub count: usize,
    /// Sum of the samples seen while warming up.
    pub initial_sum: i128,
    pub current: Option<i64>,
    /// Every sample seen so far.
    pub samples: Ghost<Seq<int>>,
}

impl Ema {
    /// The state is consistent with the samples seen.
    pub open spec fn wf(&self) -> bool {
        &&& valid_period(self.period as int)
        &&& all_in_range(self.samples@)
        &&& self.count as int == if self.samples@.len() < self.period {
            self.samples@.len() as int
        } else {
            self.period as int
        }
        &&& (self.count < self.period ==> self.initial_sum as int == sum_of(self.samples@))
        &&& opt_int(self.current) == ema_of(self.period as int, self.samples@)
    }

    /// A fresh average of the given period; a period of zero or above
    /// `MAX_PERIOD` is refused.
    pub fn new(period: usize) -> (r: Result<Ema, ConfigError>)
        ensures
            match r {
                Ok(e) => period_check(period as int) is Ok && e.wf() && e.period == period
                    && e.samples@ == Seq::<int>::empty(),
                Err(err) => period_check(period as int) == Err::<(), ConfigError>(err),
            },
    {
        match check_period(period) {
            Err(e) => Err(e),
            Ok(()) => Ok(Ema {
                period,
                count: 0,
                initial_sum: 0,
                current: None,
                samples: Ghost(Seq::empty()),
            }),
        }
    }

    /// Feeds one sample and returns the average after it.
    pub fn update(&mut self, price: i64) -> (r: Option<i64>)
        requires
            old(self).wf(),
            in_range(price as int),
        ensures
            final(self).wf(),
            final(self).period == old(self).period,
            final(self).samples@ == old(self).samples@.push(price as int),
            r == final(self).current,
            opt_int(r) == ema_of(old(self).period as int, old(self).samples@.push(price as int)),
    {
        let ghost old_xs = self.samples@;
        let ghost xs = old_xs.push(price as int);
        let ghost p = self.period as int;
        assert(xs.drop_last() =~= old_xs);
        assert(all_in_range(xs)) by {
            assert forall|i: int| 0 <= i < xs.len() implies #[trigger] in_range(xs[i]) by {
                if i < old_xs.len() {
                    assert(xs[i] == old_xs[i]);
                }
            }
        }
        if self.count < self.period {
            proof {
                lemma_sum_in_range(old_xs);
                let n = old_xs.len() as int;
                assert(n * (MAX_PRICE as int) <= MAX_PERIOD as int * (MAX_PRICE as int))
                    by (nonlinear_arith)
                    requires
                        0 <= n <= MAX_PERIOD as int,
                ;
            }
            self.initial_sum = self.initial_sum + price as i128;
            self.count = self.count + 1;
            if self.count == self.period {
                proof {
                    lemma_sum_in_range(xs);
                }
                self.current = Some(floor_div(self.initial_sum, self.period as i128));
            }
        } else {
            proof {
                lemma_ema_available(p, old_xs);
                lemma_ema_in_range(p, old_xs);
            }
            let e = self.current.unwrap();
            let d = 2 * (price as i128 - e as i128);
            let step = div_away_exec(d, self.period as i128 + 1);
            proof {
                lemma_div_away_step(price - e, p);
            }
            self.current = Some((e as i128 + step) as i64);
        }
        self.samples = Ghost(xs);
        self.current
    }

    /// The current average, if warmed up.
    pub fn get_ema(&self) -> (r: Option<i64>)
        requires
            self.wf(),
        ensures
            opt_int(r) == ema_of(self.period as int, self.samples@),
    {
        self.current
    }
}

} // verus!

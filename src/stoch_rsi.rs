//! Stochastic RSI: RSI normalised over its recent range, smoothed into
//! %K and %D.

use vstd::prelude::*;
use crate::bollinger_bands::window_of;
use crate::num::{check_period, lemma_div_within, period_check, sum_of, valid_period, ConfigError, HUNDRED_PERCENT};
use crate::rsi::{lemma_rsi_bounds, rsi_of, Rsi};
use crate::smooth::{is_level, lemma_sum_between};

verus! {

/// The values of `s` as mathematical integers.
pub open spec fn ints(s: Seq<i64>) -> Seq<int> {
    s.map_values(|x: i64| x as int)
}

/// A value in basis points between 0% and 100%.
pub open spec fn is_pct(x: int) -> bool {
    0 <= x <= HUNDRED_PERCENT as int
}

/// Every value of `xs` is between 0% and 100%.
pub open spec fn all_pct(xs: Seq<int>) -> bool {
    forall|i: int| 0 <= i < xs.len() ==> #[trigger] is_pct(xs[i])
}

/// Smallest element (0 for an empty sequence).
pub open spec fn min_of(xs: Seq<int>) -> int
    decreases xs.len(),
{
    if xs.len() == 0 {
        0
    } else if xs.len() == 1 {
        xs[0]
    } else {
        let m = min_of(xs.drop_last());
        if xs.last() < m {
            xs.last()
        } else {
            m
        }
    }
}

/// Largest element (0 for an empty sequence).
pub open spec fn max_of(xs: Seq<int>) -> int
    decreases xs.len(),
{
    if xs.len() == 0 {
        0
    } else if xs.len() == 1 {
        xs[0]
    } else {
        let m = max_of(xs.drop_last());
        if xs.last() > m {
            xs.last()
        } else {
            m
        }
    }
}

/// Where `x` sits between `lo` and `hi`, in basis points; 0 when the range
/// is empty.
pub open spec fn stoch_value(x: int, lo: int, hi: int) -> int {
    if hi == lo {
        0
    } else {
        HUNDRED_PERCENT as int * (x - lo) / (hi - lo)
    }
}

/// The mean of the last `n` values, rounded down.
pub open spec fn mean_of_last(n: int, xs: Seq<int>) -> int {
    sum_of(window_of(n, xs)) / n
}

/// Every element lies between the minimum and the maximum.
pub proof fn lemma_min_max(xs: Seq<int>)
    requires
        xs.len() > 0,
    ensures
        forall|i: int| 0 <= i < xs.len() ==> min_of(xs) <= #[trigger] xs[i] <= max_of(xs),
        exists|i: int| 0 <= i < xs.len() && xs[i] == min_of(xs),
        exists|i: int| 0 <= i < xs.len() && xs[i] == max_of(xs),
    decreases xs.len(),
{
    if xs.len() > 1 {
        let init = xs.drop_last();
        lemma_min_max(init);
        assert forall|i: int| 0 <= i < xs.len() implies min_of(xs) <= #[trigger] xs[i]
            <= max_of(xs) by {
            if i < init.len() {
                assert(xs[i] == init[i]);
            }
        }
        let a = choose|i: int| 0 <= i < init.len() && init[i] == min_of(init);
        let b = choose|i: int| 0 <= i < init.len() && init[i] == max_of(init);
        assert(xs[a] == init[a] && xs[b] == init[b]);
        assert(xs[xs.len() - 1] == xs.last());
    } else {
        assert(xs[0] == min_of(xs));
    }
}

/// A normalised value of a percentage within its range is a percentage.
pub proof fn lemma_stoch_value_pct(x: int, lo: int, hi: int)
    requires
        lo <= x <= hi,
    ensures
        is_pct(stoch_value(x, lo, hi)),
{
    if hi != lo {
        let h = HUNDRED_PERCENT as int;
        assert((hi - lo) * 0 <= h * (x - lo) <= (hi - lo) * h) by (nonlinear_arith)
            requires
                lo <= x <= hi,
                h > 0,
        ;
        lemma_div_within(h * (x - lo), hi - lo, 0, h);
    }
}

pub proof fn lemma_window_pct(n: int, xs: Seq<int>)
    requires
        n >= 1,
        all_pct(xs),
    ensures
        all_pct(window_of(n, xs)),
        window_of(n, xs).len() == if xs.len() <= n { xs.len() as int } else { n },
{
    let w = window_of(n, xs);
    if xs.len() > n {
        assert forall|i: int| 0 <= i < w.len() implies #[trigger] is_pct(w[i]) by {
            assert(w[i] == xs[xs.len() - n + i]);
        }
    }
}

proof fn lemma_mean_pct(n: int, xs: Seq<int>)
    requires
        n >= 1,
        xs.len() >= n,
        all_pct(xs),
    ensures
        is_pct(mean_of_last(n, xs)),
{
    lemma_window_pct(n, xs);
    let w = window_of(n, xs);
    assert forall|i: int| 0 <= i < w.len() implies 0 <= #[trigger] w[i]
        <= HUNDRED_PERCENT as int by {
        assert(is_pct(w[i]));
    }
    lemma_sum_between(w, 0, HUNDRED_PERCENT as int);
    lemma_div_within(sum_of(w), n, 0, HUNDRED_PERCENT as int);
}

/// Appends `x` to a window of the last `n` values of `hist`.
pub(crate) fn push_window(v: &mut Vec<i64>, x: i64, n: usize, Ghost(hist): Ghost<Seq<int>>)
    requires
        n >= 1,
        ints(old(v)@) == window_of(n as int, hist),
    ensures
        ints(final(v)@) == window_of(n as int, hist.push(x as int)),
{
    let ghost h = hist.push(x as int);
    let ghost ow = window_of(n as int, hist);
    let ghost nw = window_of(n as int, h);
    let ghost ov = v@;
    v.push(x);
    if v.len() > n {
        v.remove(0);
    }
    proof {
        let pv = ints(v@);
        let p = n as int;
        if h.len() <= p {
            assert(pv =~= nw);
        } else if hist.len() <= p {
            assert(pv =~= nw);
        } else {
            assert(ow.len() == p);
            assert(ints(ov) == ow);
            assert(ov.len() == p);
            assert(v@ == ov.push(x).remove(0));
            assert forall|k: int| 0 <= k < p implies #[trigger] pv[k] == nw[k] by {
                assert(nw[k] == h[h.len() - p + k]);
                if k < p - 1 {
                    assert(pv[k] == ov[k + 1] as int);
                    assert(ints(ov)[k + 1] == ov[k + 1] as int);
                    assert(ow[k + 1] == hist[hist.len() - p + k + 1]);
                } else {
                    assert(pv[k] == x as int);
                }
            }
            assert(pv =~= nw);
        }
    }
}

/// Smallest and largest of a non-empty window.
pub(crate) fn min_max(v: &Vec<i64>) -> (r: (i64, i64))
    requires
        v@.len() > 0,
    ensures
        r.0 as int == min_of(ints(v@)),
        r.1 as int == max_of(ints(v@)),
{
    let mut lo = v[0];
    let mut hi = v[0];
    let mut i: usize = 1;
    proof {
        assert(ints(v@).subrange(0, 1) =~= seq![v@[0] as int]);
    }
    while i < v.len()
        invariant
            1 <= i <= v@.len(),
            lo as int == min_of(ints(v@).subrange(0, i as int)),
            hi as int == max_of(ints(v@).subrange(0, i as int)),
        decreases v.len() - i,
    {
        proof {
            let a = ints(v@).subrange(0, i as int);
            let b = ints(v@).subrange(0, i as int + 1);
            assert(b.drop_last() =~= a);
        }
        if v[i] < lo {
            lo = v[i];
        }
        if v[i] > hi {
            hi = v[i];
        }
        i = i + 1;
    }
    assert(ints(v@).subrange(0, v@.len() as int) =~= ints(v@));
    (lo, hi)
}

/// The mean of a full window of percentages, rounded down.
pub(crate) fn window_mean(v: &Vec<i64>, Ghost(n): Ghost<int>) -> (r: i64)
    requires
        v@.len() == n,
        valid_period(n),
        all_pct(ints(v@)),
    ensures
        r as int == sum_of(ints(v@)) / n,
        is_pct(r as int),
{
    let mut s: i64 = 0;
    let mut i: usize = 0;
    while i < v.len()
        invariant
            0 <= i <= v@.len(),
            v@.len() == n,
            valid_period(n),
            all_pct(ints(v@)),
            s as int == sum_of(ints(v@).subrange(0, i as int)),
            0 <= s <= i * (HUNDRED_PERCENT as int),
        decreases v.len() - i,
    {
        proof {
            let a = ints(v@).subrange(0, i as int);
            let b = ints(v@).subrange(0, i as int + 1);
            assert(b.drop_last() =~= a);
            assert(is_pct(ints(v@)[i as int]));
            assert((i + 1) * (HUNDRED_PERCENT as int) == i * (HUNDRED_PERCENT as int)
                + HUNDRED_PERCENT as int) by (nonlinear_arith);
            assert(i * (HUNDRED_PERCENT as int) <= crate::num::MAX_PERIOD as int * (
            HUNDRED_PERCENT as int)) by (nonlinear_arith)
                requires
                    i <= crate::num::MAX_PERIOD as int,
            ;
        }
        s = s + v[i];
        i = i + 1;
    }
    assert(ints(v@).subrange(0, v@.len() as int) =~= ints(v@));
    proof {
        assert(n * 0 <= s);
        lemma_div_within(s as int, n, 0, HUNDRED_PERCENT as int);
    }
    s / v.len() as i64
}

/// Stochastic RSI over a stream of prices.
pub struct StochRsi {
    pub rsi: Rsi,
    /// Window of RSI values the range is taken over.
    pub period: usize,
    /// Raw values averaged into %K.
    pub k_period: usize,
    /// %K values averaged into %D.
    pub d_period: usize,
    pub rsi_values: Vec<i64>,
    pub raw_values: Vec<i64>,
    pub k_values: Vec<i64>,
    pub current_stoch_rsi: Option<i64>,
    pub current_d: Option<i64>,
    /// Every RSI value produced, every raw stochastic value, every %K.
    pub rsis: Ghost<Seq<int>>,
    pub raws: Ghost<Seq<int>>,
    pub ks: Ghost<Seq<int>>,
}

impl StochRsi {
    /// The windows and outputs follow from the values produced.
    pub open spec fn wf(&self) -> bool {
        &&& self.rsi.wf()
        &&& valid_period(self.period as int)
        &&& valid_period(self.k_period as int)
        &&& valid_period(self.d_period as int)
        &&& all_pct(self.rsis@) && all_pct(self.raws@) && all_pct(self.ks@)
        &&& ints(self.rsi_values@) == window_of(self.period as int, self.rsis@)
        &&& ints(self.raw_values@) == window_of(self.k_period as int, self.raws@)
        &&& ints(self.k_values@) == window_of(self.d_period as int, self.ks@)
        &&& (self.ks@.len() == 0 <==> self.current_stoch_rsi is None)
        &&& (self.current_stoch_rsi matches Some(k) ==> k as int == self.ks@.last())
        &&& (self.ks@.len() < self.d_period <==> self.current_d is None)
        &&& (self.current_d matches Some(d) ==> d as int == mean_of_last(
            self.d_period as int,
            self.ks@,
        ))
    }

    /// A stochastic RSI with the given RSI period, range window, and %K and
    /// %D smoothing; each is checked as `Ema::new` does.
    pub fn new(rsi_period: usize, stoch_period: usize, k_smooth: usize, d_smooth: usize) -> (r:
        Result<StochRsi, ConfigError>)
        ensures
            r is Ok <==> (period_check(rsi_period as int) is Ok && period_check(stoch_period as int)
                is Ok && period_check(k_smooth as int) is Ok && period_check(d_smooth as int)
                is Ok),
            r matches Ok(s) ==> s.wf() && s.rsi.period == rsi_period && s.period == stoch_period
                && s.k_period == k_smooth && s.d_period == d_smooth && s.rsi.prices@ == Seq::<
                int,
            >::empty() && s.rsis@ == Seq::<int>::empty(),
    {
        let rsi = match Rsi::new(rsi_period) {
            Ok(r) => r,
            Err(e) => return Err(e),
        };
        match check_period(stoch_period) {
            Ok(()) => {},
            Err(e) => return Err(e),
        }
        match check_period(k_smooth) {
            Ok(()) => {},
            Err(e) => return Err(e),
        }
        match check_period(d_smooth) {
            Ok(()) => {},
            Err(e) => return Err(e),
        }
        let s = StochRsi {
            rsi,
            period: stoch_period,
            k_period: k_smooth,
            d_period: d_smooth,
            rsi_values: Vec::new(),
            raw_values: Vec::new(),
            k_values: Vec::new(),
            current_stoch_rsi: None,
            current_d: None,
            rsis: Ghost(Seq::empty()),
            raws: Ghost(Seq::empty()),
            ks: Ghost(Seq::empty()),
        };
        assert(ints(s.rsi_values@) =~= Seq::<int>::empty());
        assert(ints(s.raw_values@) =~= Seq::<int>::empty());
        assert(ints(s.k_values@) =~= Seq::<int>::empty());
        Ok(s)
    }

    /// Feeds one price and returns %K and %D. Each new RSI value joins its
    /// window; once the window is full, the RSI's place in the window's
    /// range is a raw value; once `k_period` raw values exist, their mean is
    /// a new %K; once `d_period` %K values exist, their mean is %D.
    pub fn update(&mut self, price: i64) -> (r: (Option<i64>, Option<i64>))
        requires
            old(self).wf(),
            is_level(price as int),
        ensures
            final(self).wf(),
            r == (final(self).current_stoch_rsi, final(self).current_d),
            final(self).rsi.prices@ == old(self).rsi.prices@.push(price as int),
            final(self).period == old(self).period,
            final(self).k_period == old(self).k_period,
            final(self).d_period == old(self).d_period,
            match rsi_of(old(self).rsi.period as int, final(self).rsi.prices@) {
                None => final(self).rsis@ == old(self).rsis@ && final(self).raws@ == old(
                    self,
                ).raws@ && final(self).ks@ == old(self).ks@,
                Some(v) => {
                    let rs = old(self).rsis@.push(v);
                    let w = window_of(old(self).period as int, rs);
                    &&& final(self).rsis@ == rs
                    &&& if rs.len() < old(self).period {
                        final(self).raws@ == old(self).raws@ && final(self).ks@ == old(self).ks@
                    } else {
                        let raws = old(self).raws@.push(stoch_value(v, min_of(w), max_of(w)));
                        &&& final(self).raws@ == raws
                        &&& if raws.len() < old(self).k_period {
                            final(self).ks@ == old(self).ks@
                        } else {
                            final(self).ks@ == old(self).ks@.push(
                                mean_of_last(old(self).k_period as int, raws),
                            )
                        }
                    }
                },
            },
    {
        let v = self.rsi.update(price);
        match v {
            None => {},
            Some(value) => {
                proof {
                    lemma_rsi_bounds(self.rsi.period as int, self.rsi.prices@);
                }
                let ghost rs = self.rsis@.push(value as int);
                push_window(&mut self.rsi_values, value, self.period, Ghost(self.rsis@));
                assert(all_pct(rs)) by {
                    assert forall|i: int| 0 <= i < rs.len() implies #[trigger] is_pct(rs[i]) by {
                        if i < self.rsis@.len() {
                            assert(rs[i] == self.rsis@[i]);
                        }
                    }
                }
                self.rsis = Ghost(rs);
                if self.rsi_values.len() >= self.period {
                    let ghost w = window_of(self.period as int, rs);
                    proof {
                        lemma_window_pct(self.period as int, rs);
                        lemma_min_max(w);
                        assert(w.last() == value as int);
                        assert(w[w.len() - 1] == w.last());
                    }
                    let (lo, hi) = min_max(&self.rsi_values);
                    proof {
                        assert(lo as int == min_of(w) && hi as int == max_of(w));
                        let last = w[w.len() - 1];
                        assert(min_of(w) <= last <= max_of(w));
                        let a = choose|i: int| 0 <= i < w.len() && w[i] == min_of(w);
                        assert(is_pct(w[a]));
                        assert(is_pct(w[w.len() - 1]));
                        lemma_stoch_value_pct(value as int, lo as int, hi as int);
                        assert(HUNDRED_PERCENT as int * (value - lo) <= HUNDRED_PERCENT as int
                            * HUNDRED_PERCENT as int) by (nonlinear_arith)
                            requires
                                0 <= value - lo <= HUNDRED_PERCENT as int,
                        ;
                    }
                    let raw: i64 = if hi == lo {
                        0
                    } else {
                        (HUNDRED_PERCENT * (value - lo)) / (hi - lo)
                    };
                    let ghost raws = self.raws@.push(raw as int);
                    push_window(&mut self.raw_values, raw, self.k_period, Ghost(self.raws@));
                    assert(all_pct(raws)) by {
                        assert forall|i: int| 0 <= i < raws.len() implies #[trigger] is_pct(
                            raws[i],
                        ) by {
                            if i < self.raws@.len() {
                                assert(raws[i] == self.raws@[i]);
                            }
                        }
                    }
                    self.raws = Ghost(raws);
                    if self.raw_values.len() >= self.k_period {
                        proof {
                            lemma_window_pct(self.k_period as int, raws);
                            lemma_mean_pct(self.k_period as int, raws);
                        }
                        let k = window_mean(&self.raw_values, Ghost(self.k_period as int));
                        let ghost ks = self.ks@.push(k as int);
                        push_window(&mut self.k_values, k, self.d_period, Ghost(self.ks@));
                        assert(all_pct(ks)) by {
                            assert forall|i: int| 0 <= i < ks.len() implies #[trigger] is_pct(
                                ks[i],
                            ) by {
                                if i < self.ks@.len() {
                                    assert(ks[i] == self.ks@[i]);
                                }
                            }
                        }
                        self.ks = Ghost(ks);
                        self.current_stoch_rsi = Some(k);
                        if self.k_values.len() >= self.d_period {
                            proof {
                                lemma_window_pct(self.d_period as int, ks);
                            }
                            let d = window_mean(&self.k_values, Ghost(self.d_period as int));
                            self.current_d = Some(d);
                        }
                    }
                }
            },
        }
        (self.current_stoch_rsi, self.current_d)
    }

    /// The current %K, once it exists.
    pub fn get_current_k(&self) -> (r: Option<i64>)
        requires
            self.wf(),
        ensures
            r is Some <==> self.ks@.len() > 0,
            r matches Some(k) ==> k as int == self.ks@.last(),
    {
        self.current_stoch_rsi
    }

    /// The current %D, once it exists.
    pub fn get_current_d(&self) -> (r: Option<i64>)
        requires
            self.wf(),
        ensures
            r is Some <==> self.ks@.len() >= self.d_period,
            r matches Some(d) ==> d as int == mean_of_last(self.d_period as int, self.ks@),
    {
        self.current_d
    }
}

} // verus!

//! Bollinger Bands over a trailing window.

use vstd::prelude::*;
use crate::num::{check_period, lemma_div_within, period_check, sum_of, valid_period, ConfigError, MAX_PERIOD, MAX_PRICE};
use crate::smooth::{all_levels, is_level, lemma_sum_between};

verus! {

/// The integer square root: the largest `r` with `r * r <= v`.
pub open spec fn isqrt(v: nat) -> nat
    decreases v,
{
    if v == 0 {
        0
    } else {
        let r = isqrt((v - 1) as nat);
        if (r + 1) * (r + 1) <= v {
            r + 1
        } else {
            r
        }
    }
}

/// `isqrt(v)` is the largest integer whose square is at most `v`.
pub proof fn lemma_isqrt(v: nat)
    ensures
        isqrt(v) * isqrt(v) <= v < (isqrt(v) + 1) * (isqrt(v) + 1),
    decreases v,
{
    if v > 0 {
        lemma_isqrt((v - 1) as nat);
        let r = isqrt((v - 1) as nat) as int;
        let s = isqrt(v) as int;
        if (r + 1) * (r + 1) <= v {
            assert(s == r + 1);
            assert(v < (r + 2) * (r + 2)) by (nonlinear_arith)
                requires
                    v - 1 < (r + 1) * (r + 1),
                    r >= 0,
            ;
            assert(s * s <= v < (s + 1) * (s + 1));
            assert((isqrt(v) + 1) * (isqrt(v) + 1) == (s + 1) * (s + 1));
        } else {
            assert(s == r);
            assert(s * s <= v < (s + 1) * (s + 1));
            assert((isqrt(v) + 1) * (isqrt(v) + 1) == (s + 1) * (s + 1));
        }
    } else {
        assert(isqrt(v) == 0);
        let z = isqrt(v) as int;
        assert(z * z <= v < (z + 1) * (z + 1)) by (nonlinear_arith)
            requires
                z == 0,
                v == 0,
        ;
    }
}

/// Only one integer is the square root of `v`.
pub proof fn lemma_isqrt_unique(v: nat, r: int)
    requires
        r >= 0,
        r * r <= v < (r + 1) * (r + 1),
    ensures
        r == isqrt(v),
{
    lemma_isqrt(v);
    let s = isqrt(v) as int;
    if r < s {
        assert((r + 1) * (r + 1) <= s * s) by (nonlinear_arith)
            requires
                0 <= r < s,
        ;
    } else if r > s {
        assert((s + 1) * (s + 1) <= r * r) by (nonlinear_arith)
            requires
                0 <= s < r,
        ;
    }
}

/// Integer square root, by bisection.
pub fn isqrt_exec(v: u128) -> (r: u64)
    requires
        v < 0x1_0000_0000_0000_0000_0000_0000_0000,
    ensures
        r as int == isqrt(v as nat),
{
    let mut lo: u128 = 0;
    let mut hi: u128 = 0x100_0000_0000_0000;
    assert(hi * hi == 0x1_0000_0000_0000_0000_0000_0000_0000);
    while hi - lo > 1
        invariant
            lo < hi <= 0x100_0000_0000_0000,
            lo * lo <= v,
            v < hi * hi,
        decreases hi - lo,
    {
        let mid = lo + (hi - lo) / 2;
        assert(mid * mid <= 0x1_0000_0000_0000_0000_0000_0000_0000) by (nonlinear_arith)
            requires
                mid < hi <= 0x100_0000_0000_0000,
        ;
        if mid * mid <= v {
            lo = mid;
        } else {
            hi = mid;
        }
    }
    proof {
        assert(hi == lo + 1);
        lemma_isqrt_unique(v as nat, lo as int);
    }
    lo as u64
}

/// Sum of squared distances of `xs` from `m`.
pub open spec fn sq_dev_sum(xs: Seq<int>, m: int) -> int
    decreases xs.len(),
{
    if xs.len() == 0 {
        0
    } else {
        sq_dev_sum(xs.drop_last(), m) + (xs.last() - m) * (xs.last() - m)
    }
}

/// The trailing window of the last `p` samples.
pub open spec fn window_of(p: int, xs: Seq<int>) -> Seq<int> {
    if xs.len() <= p {
        xs
    } else {
        xs.subrange(xs.len() - p, xs.len() as int)
    }
}

/// The smallest `r` with `r * r >= v`: the square root rounded up.
pub open spec fn isqrt_up(v: nat) -> nat {
    if isqrt(v) * isqrt(v) == v {
        isqrt(v)
    } else {
        isqrt(v) + 1
    }
}

/// Upper, middle and lower band over a full window `w` of `p` samples: the
/// mean rounded down, plus and minus twice the standard deviation. The
/// variance (mean squared distance from that mean) and its square root are
/// rounded up, so the bands are apart whenever the samples differ.
pub open spec fn bands_for(p: int, w: Seq<int>) -> (int, int, int) {
    let m = sum_of(w) / p;
    let sd = isqrt_up(((sq_dev_sum(w, m) + p - 1) / p) as nat) as int;
    (m + 2 * sd, m, m - 2 * sd)
}

/// All samples of `w` are equal.
pub open spec fn constant_window(w: Seq<int>) -> bool {
    forall|i: int, j: int| 0 <= i < w.len() && 0 <= j < w.len() ==> w[i] == w[j]
}

/// The squared distances sum to 0 exactly when every sample is `m`.
pub proof fn lemma_sq_dev_zero(xs: Seq<int>, m: int)
    ensures
        sq_dev_sum(xs, m) >= 0,
        sq_dev_sum(xs, m) == 0 <==> forall|i: int| 0 <= i < xs.len() ==> #[trigger] xs[i] == m,
    decreases xs.len(),
{
    if xs.len() > 0 {
        let init = xs.drop_last();
        lemma_sq_dev_zero(init, m);
        let x = xs[xs.len() - 1];
        assert((x - m) * (x - m) >= 0 && ((x - m) * (x - m) == 0 <==> x == m))
            by (nonlinear_arith);
        if sq_dev_sum(xs, m) == 0 {
            assert forall|i: int| 0 <= i < xs.len() implies #[trigger] xs[i] == m by {
                if i < init.len() {
                    assert(init[i] == xs[i]);
                }
            }
        }
        if forall|i: int| 0 <= i < xs.len() ==> #[trigger] xs[i] == m {
            assert forall|i: int| 0 <= i < init.len() implies #[trigger] init[i] == m by {
                assert(init[i] == xs[i]);
            }
        }
    }
}

/// Over a full window, the bands are symmetric about the middle, ordered,
/// and coincide exactly when every sample of the window is equal.
pub proof fn lemma_bands_shape(p: int, w: Seq<int>)
    requires
        p >= 1,
        w.len() == p,
    ensures
        ({
            let (u, m, l) = bands_for(p, w);
            &&& l <= m <= u
            &&& u - m == m - l
            &&& (u == l <==> constant_window(w))
        }),
{
    let m = sum_of(w) / p;
    lemma_sq_dev_zero(w, m);
    let sq = sq_dev_sum(w, m);
    crate::smooth::lemma_ceil_zero(sq, p);
    crate::smooth::lemma_ceil_nonneg(sq, p);
    let var = (sq + p - 1) / p;
    lemma_isqrt(var as nat);
    let r = isqrt(var as nat) as int;
    if constant_window(w) {
        let c = w[0];
        assert forall|i: int| 0 <= i < w.len() implies c <= #[trigger] w[i] <= c by {
            assert(w[i] == w[0]);
        }
        crate::smooth::lemma_sum_between(w, c, c);
        crate::num::lemma_div_within(sum_of(w), p, c, c);
        assert forall|i: int| 0 <= i < w.len() implies #[trigger] w[i] == m by {
            assert(w[i] == w[0]);
        }
        assert(var == 0);
        assert(r == 0) by (nonlinear_arith)
            requires
                r * r <= var,
                var == 0,
                r >= 0,
        ;
        assert(r * r == 0) by (nonlinear_arith)
            requires
                r == 0,
        ;
    } else {
        if forall|i: int| 0 <= i < w.len() ==> #[trigger] w[i] == m {
            assert forall|i: int, j: int| 0 <= i < w.len() && 0 <= j < w.len() implies w[i]
                == w[j] by {
                assert(w[i] == m && w[j] == m);
            }
        }
        assert(var >= 1);
        if r == 0 {
            assert(r * r == 0) by (nonlinear_arith)
                requires
                    r == 0,
            ;
        }
    }
}

/// The bands after `xs`, once `p` samples have been seen.
pub open spec fn bands_of(p: int, xs: Seq<int>) -> Option<(int, int, int)> {
    if xs.len() < p {
        None
    } else {
        Some(bands_for(p, window_of(p, xs)))
    }
}

/// The bands of period `p` are unavailable for the first `p - 1` prices
/// and defined from the `p`-th price on.
pub proof fn lemma_bands_available(p: int, xs: Seq<int>)
    requires
        p >= 1,
    ensures
        bands_of(p, xs) is Some <==> xs.len() >= p,
{
}

proof fn lemma_sq_dev_bound(xs: Seq<int>, m: int)
    requires
        all_levels(xs),
        is_level(m),
    ensures
        0 <= sq_dev_sum(xs, m) <= xs.len() * (MAX_PRICE as int * MAX_PRICE as int),
    decreases xs.len(),
{
    if xs.len() > 0 {
        let init = xs.drop_last();
        assert forall|i: int| 0 <= i < init.len() implies #[trigger] is_level(init[i]) by {
            assert(init[i] == xs[i]);
        }
        lemma_sq_dev_bound(init, m);
        let x = xs[xs.len() - 1];
        assert(is_level(x));
        let b = MAX_PRICE as int;
        assert(0 <= (x - m) * (x - m) <= b * b) by (nonlinear_arith)
            requires
                0 <= x <= b,
                0 <= m <= b,
        ;
        assert(xs.len() * (b * b) == init.len() * (b * b) + b * b) by (nonlinear_arith)
            requires
                xs.len() == init.len() + 1,
        ;
    }
}

/// Bollinger Bands over a stream of prices.
pub struct BollingerBands {
    pub period: usize,
    /// The last `period` prices, oldest first.
    pub prices: Vec<i64>,
    pub upper_band: Option<i64>,
    pub middle_band: Option<i64>,
    pub lower_band: Option<i64>,
    /// Every price seen so far.
    pub history: Ghost<Seq<int>>,
}

impl BollingerBands {
    /// The window and bands follow from the prices seen.
    pub open spec fn wf(&self) -> bool {
        &&& valid_period(self.period as int)
        &&& all_levels(self.history@)
        &&& self.prices@.map_values(|x: i64| x as int) == window_of(
            self.period as int,
            self.history@,
        )
        &&& match bands_of(self.period as int, self.history@) {
            Some((u, m, l)) => self.upper_band == Some(u as i64) && self.middle_band == Some(
                m as i64,
            ) && self.lower_band == Some(l as i64) && in_i64(u) && in_i64(l),
            None => self.upper_band is None && self.middle_band is None && self.lower_band is None,
        }
    }

    /// Bands over a window of `period` prices; a period of zero or above
    /// `MAX_PERIOD` is refused.
    pub fn new(period: usize) -> (r: Result<BollingerBands, ConfigError>)
        ensures
            match r {
                Ok(b) => period_check(period as int) is Ok && b.wf() && b.period == period
                    && b.history@ == Seq::<int>::empty(),
                Err(err) => period_check(period as int) == Err::<(), ConfigError>(err),
            },
    {
        match check_period(period) {
            Err(e) => Err(e),
            Ok(()) => {
                let b = BollingerBands {
                    period,
                    prices: Vec::new(),
                    upper_band: None,
                    middle_band: None,
                    lower_band: None,
                    history: Ghost(Seq::empty()),
                };
                assert(b.prices@.map_values(|x: i64| x as int) =~= Seq::<int>::empty());
                Ok(b)
            },
        }
    }

    /// Feeds one price.
    pub fn update(&mut self, price: i64)
        requires
            old(self).wf(),
            is_level(price as int),
        ensures
            final(self).wf(),
            final(self).period == old(self).period,
            final(self).history@ == old(self).history@.push(price as int),
    {
        let ghost p = self.period as int;
        let ghost old_h = self.history@;
        let ghost h = old_h.push(price as int);
        assert(all_levels(h)) by {
            assert forall|i: int| 0 <= i < h.len() implies #[trigger] is_level(h[i]) by {
                if i < old_h.len() {
                    assert(h[i] == old_h[i]);
                }
            }
        }
        self.prices.push(price);
        if self.prices.len() > self.period {
            self.prices.remove(0);
        }
        self.history = Ghost(h);
        proof {
            let ow = window_of(p, old_h);
            let nw = window_of(p, h);
            if h.len() <= p || old_h.len() <= p {
                assert(self.prices@.map_values(|x: i64| x as int) =~= nw);
            } else {
                assert(ow.len() == p);
                let pv = self.prices@.map_values(|x: i64| x as int);
                assert forall|k: int| 0 <= k < p implies #[trigger] pv[k] == nw[k] by {
                    assert(nw[k] == h[h.len() - p + k]);
                    if k < p - 1 {
                        assert(ow[k + 1] == old_h[old_h.len() - p + k + 1]);
                    }
                }
                assert(self.prices@.map_values(|x: i64| x as int) =~= nw);
            }
        }
        if self.prices.len() < self.period {
            return;
        }
        let ghost w = window_of(p, h);
        assert(w.len() == p);
        assert(all_levels(w)) by {
            if h.len() > p {
                assert forall|i: int| 0 <= i < w.len() implies #[trigger] is_level(w[i]) by {
                    assert(w[i] == h[h.len() - p + i]);
                    assert(is_level(h[h.len() - p + i]));
                }
            }
        }
        let n = self.prices.len();
        let mut sum: i128 = 0;
        let mut i: usize = 0;
        while i < n
            invariant
                n == self.prices@.len(),
                n as int == p,
                valid_period(p),
                self.prices@.map_values(|x: i64| x as int) == w,
                all_levels(w),
                0 <= i <= n,
                sum as int == sum_of(w.subrange(0, i as int)),
                0 <= sum <= i * (MAX_PRICE as int),
            decreases n - i,
        {
            proof {
                let a = w.subrange(0, i as int);
                let b = w.subrange(0, i as int + 1);
                assert(b.drop_last() =~= a);
                assert(w[i as int] == self.prices@[i as int] as int);
                assert(is_level(w[i as int]));
                assert((i + 1) * (MAX_PRICE as int) == i * (MAX_PRICE as int) + MAX_PRICE as int)
                    by (nonlinear_arith);
                assert(i * (MAX_PRICE as int) <= MAX_PERIOD as int * (MAX_PRICE as int))
                    by (nonlinear_arith)
                    requires
                        i <= MAX_PERIOD as int,
                ;
            }
            sum = sum + self.prices[i] as i128;
            i = i + 1;
        }
        assert(w.subrange(0, n as int) =~= w);
        proof {
            assert forall|k: int| 0 <= k < w.len() implies 0 <= #[trigger] w[k]
                <= MAX_PRICE as int by {
                assert(is_level(w[k]));
            }
            lemma_sum_between(w, 0, MAX_PRICE as int);
            assert(p * 0 <= sum_of(w));
            lemma_div_within(sum_of(w), p, 0, MAX_PRICE as int);
        }
        let mean: i128 = sum / n as i128;
        let mut sq: i128 = 0;
        let mut j: usize = 0;
        while j < n
            invariant
                n == self.prices@.len(),
                n as int == p,
                valid_period(p),
                self.prices@.map_values(|x: i64| x as int) == w,
                all_levels(w),
                is_level(mean as int),
                0 <= j <= n,
                sq as int == sq_dev_sum(w.subrange(0, j as int), mean as int),
                0 <= sq <= j * (MAX_PRICE as int * MAX_PRICE as int),
            decreases n - j,
        {
            let ghost bb = MAX_PRICE as int * MAX_PRICE as int;
            proof {
                let a = w.subrange(0, j as int);
                let b = w.subrange(0, j as int + 1);
                assert(b.drop_last() =~= a);
                assert(w[j as int] == self.prices@[j as int] as int);
                assert(is_level(w[j as int]));
                let x = w[j as int];
                let m = mean as int;
                assert(0 <= (x - m) * (x - m) <= bb) by (nonlinear_arith)
                    requires
                        0 <= x <= MAX_PRICE as int,
                        0 <= m <= MAX_PRICE as int,
                        bb == MAX_PRICE as int * MAX_PRICE as int,
                ;
                assert((j + 1) * bb == j * bb + bb) by (nonlinear_arith);
                assert(j * bb <= MAX_PERIOD as int * bb) by (nonlinear_arith)
                    requires
                        j <= MAX_PERIOD as int,
                        bb >= 0,
                ;
            }
            let d = self.prices[j] as i128 - mean;
            sq = sq + d * d;
            j = j + 1;
        }
        assert(w.subrange(0, n as int) =~= w);
        proof {
            let bb = MAX_PRICE as int * MAX_PRICE as int;
            assert(sq <= p * bb);
            assert(p * bb <= MAX_PERIOD as int * bb) by (nonlinear_arith)
                requires
                    p <= MAX_PERIOD as int,
                    bb >= 0,
            ;
        }
        let var = (sq + n as i128 - 1) / n as i128;
        proof {
            let bb = MAX_PRICE as int * MAX_PRICE as int;
            assert(p * 0 <= sq);
            assert(sq <= p * bb);
            crate::smooth::lemma_ceil_within(sq as int, p, 0, bb);
            assert(bb < 0x1_0000_0000_0000_0000_0000_0000_0000);
        }
        let root = isqrt_exec(var as u128) as i128;
        proof {
            lemma_isqrt(var as nat);
            let bb = MAX_PRICE as int * MAX_PRICE as int;
            let b = MAX_PRICE as int;
            assert(root <= b) by (nonlinear_arith)
                requires
                    root * root <= var,
                    var <= bb,
                    bb == b * b,
                    root >= 0,
                    b >= 0,
            ;
            assert(root * root <= b * b) by (nonlinear_arith)
                requires
                    0 <= root <= b,
            ;
        }
        let sd = if root * root < var {
            root + 1
        } else {
            root
        };
        proof {
            let bb = MAX_PRICE as int * MAX_PRICE as int;
            let b = MAX_PRICE as int;
            assert(root <= b) by (nonlinear_arith)
                requires
                    root * root <= var,
                    var <= bb,
                    bb == b * b,
                    root >= 0,
                    b >= 0,
            ;
            if root * root < var {
                assert(root < b) by (nonlinear_arith)
                    requires
                        root * root < var,
                        var <= bb,
                        bb == b * b,
                        root >= 0,
                        b >= 0,
                ;
            }
            assert(sd as int == isqrt_up(var as nat) as int);
        }
        self.upper_band = Some((mean + 2 * sd) as i64);
        self.middle_band = Some(mean as i64);
        self.lower_band = Some((mean - 2 * sd) as i64);
    }

    /// Upper, middle and lower band, once a full window has been seen. The
    /// bands are symmetric about the middle, and coincide exactly when the
    /// window's prices are all equal.
    pub fn get_bands(&self) -> (r: (Option<i64>, Option<i64>, Option<i64>))
        requires
            self.wf(),
        ensures
            match bands_of(self.period as int, self.history@) {
                Some((u, m, l)) => r == (Some(u as i64), Some(m as i64), Some(l as i64)),
                None => r == (None::<i64>, None::<i64>, None::<i64>),
            },
            r.1 is None <==> self.history@.len() < self.period,
            (r.0, r.1, r.2) matches (Some(u), Some(m), Some(l)) ==> l <= m <= u && u - m == m - l
                && (u == l <==> constant_window(window_of(self.period as int, self.history@))),
    {
        proof {
            if self.history@.len() >= self.period {
                lemma_bands_shape(self.period as int, window_of(self.period as int, self.history@));
            }
        }
        (self.upper_band, self.middle_band, self.lower_band)
    }
}

/// The value fits an `i64`.
pub open spec fn in_i64(x: int) -> bool {
    i64::MIN <= x <= i64::MAX
}

} // verus!

//! Stochastic oscillator over prices.

use vstd::prelude::*;
use crate::bollinger_bands::window_of;
use crate::num::{check_period, period_check, sum_of, valid_period, ConfigError, HUNDRED_PERCENT};
use crate::smooth::{all_levels, is_level};
use crate::stoch_rsi::{
    all_pct, ints, is_pct, lemma_min_max, lemma_stoch_value_pct, lemma_window_pct, max_of,
    min_max, min_of, push_window, stoch_value, window_mean,
};

verus! {

/// How many earlier %K values %D averages.
pub const D_WINDOW: usize = 3;

/// %D for a new %K: the mean of the `D_WINDOW` %K values before it, or the
/// new %K itself while there are fewer.
pub open spec fn d_for(k: int, earlier: Seq<int>) -> int {
    if earlier.len() < D_WINDOW {
        k
    } else {
        sum_of(window_of(D_WINDOW as int, earlier)) / D_WINDOW as int
    }
}

/// %K and %D over a trailing window of prices.
pub struct StochasticOscillator {
    pub period: usize,
    /// The last `period` prices.
    pub prices: Vec<i64>,
    /// The last `D_WINDOW` %K values.
    pub recent_k: Vec<i64>,
    /// Every price and every %K so far.
    pub history: Ghost<Seq<int>>,
    pub ks: Ghost<Seq<int>>,
}

impl StochasticOscillator {
    /// The windows follow from the history.
    pub open spec fn wf(&self) -> bool {
        &&& valid_period(self.period as int)
        &&& all_levels(self.history@)
        &&& all_pct(self.ks@)
        &&& ints(self.prices@) == window_of(self.period as int, self.history@)
        &&& ints(self.recent_k@) == window_of(D_WINDOW as int, self.ks@)
    }

    /// An oscillator over `period` prices; a period of zero or above
    /// `MAX_PERIOD` is refused.
    pub fn new(period: usize) -> (r: Result<StochasticOscillator, ConfigError>)
        ensures
            match r {
                Ok(s) => period_check(period as int) is Ok && s.wf() && s.period == period
                    && s.history@ == Seq::<int>::empty() && s.ks@ == Seq::<int>::empty(),
                Err(err) => period_check(period as int) == Err::<(), ConfigError>(err),
            },
    {
        match check_period(period) {
            Err(e) => Err(e),
            Ok(()) => {
                let s = StochasticOscillator {
                    period,
                    prices: Vec::new(),
                    recent_k: Vec::new(),
                    history: Ghost(Seq::empty()),
                    ks: Ghost(Seq::empty()),
                };
                assert(ints(s.prices@) =~= Seq::<int>::empty());
                assert(ints(s.recent_k@) =~= Seq::<int>::empty());
                Ok(s)
            },
        }
    }

    /// Feeds one price; once the window is full, returns %K, where the
    /// price sits in the window's range in basis points (0 for a flat
    /// window), and %D.
    pub fn update(&mut self, price: i64) -> (r: Option<(i64, i64)>)
        requires
            old(self).wf(),
            is_level(price as int),
        ensures
            final(self).wf(),
            final(self).period == old(self).period,
            final(self).history@ == old(self).history@.push(price as int),
            ({
                let h = old(self).history@.push(price as int);
                let w = window_of(old(self).period as int, h);
                if h.len() < old(self).period {
                    r is None && final(self).ks@ == old(self).ks@
                } else {
                    let k = stoch_value(price as int, min_of(w), max_of(w));
                    &&& final(self).ks@ == old(self).ks@.push(k)
                    &&& r matches Some((rk, rd)) && rk as int == k && rd as int == d_for(
                        k,
                        old(self).ks@,
                    )
                }
            }),
    {
        let ghost h = self.history@.push(price as int);
        let ghost p = self.period as int;
        push_window(&mut self.prices, price, self.period, Ghost(self.history@));
        assert(all_levels(h)) by {
            assert forall|i: int| 0 <= i < h.len() implies #[trigger] is_level(h[i]) by {
                if i < self.history@.len() {
                    assert(h[i] == self.history@[i]);
                }
            }
        }
        self.history = Ghost(h);
        if self.prices.len() < self.period {
            return None;
        }
        let ghost w = window_of(p, h);
        proof {
            assert(w.len() == p);
            lemma_min_max(w);
            assert(w[w.len() - 1] == price as int);
            if h.len() > p {
                assert forall|i: int| 0 <= i < w.len() implies #[trigger] is_level(w[i]) by {
                    assert(w[i] == h[h.len() - p + i]);
                }
            }
        }
        let (lo, hi) = min_max(&self.prices);
        proof {
            let a = choose|i: int| 0 <= i < w.len() && w[i] == min_of(w);
            assert(is_level(w[a]));
            lemma_stoch_value_pct(price as int, lo as int, hi as int);
        }
        let k: i64 = if hi == lo {
            0
        } else {
            ((HUNDRED_PERCENT as i128 * (price - lo) as i128) / (hi - lo) as i128) as i64
        };
        let d: i64 = if self.recent_k.len() < D_WINDOW {
            k
        } else {
            proof {
                lemma_window_pct(D_WINDOW as int, self.ks@);
            }
            window_mean(&self.recent_k, Ghost(D_WINDOW as int))
        };
        let ghost ks = self.ks@.push(k as int);
        push_window(&mut self.recent_k, k, D_WINDOW, Ghost(self.ks@));
        assert(all_pct(ks)) by {
            assert forall|i: int| 0 <= i < ks.len() implies #[trigger] is_pct(ks[i]) by {
                if i < self.ks@.len() {
                    assert(ks[i] == self.ks@[i]);
                }
            }
        }
        self.ks = Ghost(ks);
        Some((k, d))
    }
}

} // verus!

//! Relative strength index over Wilder-smoothed gains and losses.

use vstd::prelude::*;
use crate::num::{lemma_div_upper, lemma_div_within, opt_int, ConfigError, HUNDRED_PERCENT};
use crate::smooth::{
    all_levels, is_level, lemma_smoothed_level, lemma_wilder_available, lemma_wilder_level,
    lemma_wilder_up_available, lemma_wilder_up_zero, wilder_of, wilder_up_of, Wilder,
};

verus! {

/// The rise from `a` to `b`, or zero.
pub open spec fn gain(a: int, b: int) -> int {
    if b > a {
        b - a
    } else {
        0
    }
}

/// The fall from `a` to `b`, or zero.
pub open spec fn loss(a: int, b: int) -> int {
    if b < a {
        a - b
    } else {
        0
    }
}

/// The gain of each consecutive pair of prices.
pub open spec fn gains_of(xs: Seq<int>) -> Seq<int> {
    if xs.len() == 0 {
        Seq::empty()
    } else {
        Seq::new((xs.len() - 1) as nat, |i: int| gain(xs[i], xs[i + 1]))
    }
}

/// The loss of each consecutive pair of prices.
pub open spec fn losses_of(xs: Seq<int>) -> Seq<int> {
    if xs.len() == 0 {
        Seq::empty()
    } else {
        Seq::new((xs.len() - 1) as nat, |i: int| loss(xs[i], xs[i + 1]))
    }
}

/// RSI in basis points from the average gain and loss:
/// `100 - 100 / (1 + g / l)`, which is `100 * g / (g + l)`, and 100 when
/// there is no average loss.
pub open spec fn rsi_value(g: int, l: int) -> int {
    if l == 0 {
        HUNDRED_PERCENT as int
    } else {
        HUNDRED_PERCENT as int * g / (g + l)
    }
}

/// The RSI of period `p` after the prices `xs`, once both averages exist.
/// The average gain is rounded down and the average loss up, so that a fall
/// never vanishes from the loss average through rounding.
pub open spec fn rsi_of(p: int, xs: Seq<int>) -> Option<int> {
    match (wilder_of(p, gains_of(xs)), wilder_up_of(p, losses_of(xs))) {
        (Some(g), Some(l)) => Some(rsi_value(g, l)),
        _ => None,
    }
}

/// RSI of period `p` needs `p` price changes: it is unavailable for the
/// first `p` prices and defined from the price after them on.
pub proof fn lemma_rsi_available(p: int, xs: Seq<int>)
    requires
        p >= 1,
    ensures
        rsi_of(p, xs) is Some <==> xs.len() >= p + 1,
{
    lemma_wilder_available(p, gains_of(xs));
    lemma_wilder_up_available(p, losses_of(xs));
}

/// RSI lies in `[0, 100]`, and is 100 exactly when the average loss is 0.
pub proof fn lemma_rsi_value_bounds(g: int, l: int)
    requires
        g >= 0,
        l >= 0,
    ensures
        0 <= rsi_value(g, l) <= HUNDRED_PERCENT as int,
        rsi_value(g, l) == HUNDRED_PERCENT as int <==> l == 0,
{
    if l > 0 {
        let h = HUNDRED_PERCENT as int;
        assert(0 <= h * g <= (g + l) * h) by (nonlinear_arith)
            requires
                g >= 0,
                l > 0,
                h > 0,
        ;
        assert((g + l) * 0 <= h * g);
        lemma_div_within(h * g, g + l, 0, h);
        assert(h * g < (g + l) * ((h - 1) + 1)) by (nonlinear_arith)
            requires
                g >= 0,
                l > 0,
                h > 0,
        ;
        lemma_div_upper(h * g, g + l, h - 1);
    }
}

/// For any prices, RSI (once available) lies in `[0, 100]`, and is 100
/// exactly when the smoothed average loss is 0; with a period of at least
/// 2, that is exactly when no price has fallen.
pub proof fn lemma_rsi_bounds(p: int, xs: Seq<int>)
    requires
        p >= 1,
        all_levels(xs),
    ensures
        rsi_of(p, xs) matches Some(r) ==> 0 <= r <= HUNDRED_PERCENT as int && (r
            == HUNDRED_PERCENT as int <==> wilder_up_of(p, losses_of(xs)) == Some(0int)),
        p >= 2 ==> (rsi_of(p, xs) matches Some(r) ==> (r == HUNDRED_PERCENT as int
            <==> no_fall(xs))),
{
    lemma_changes_are_levels(xs);
    lemma_wilder_level(p, gains_of(xs));
    lemma_smoothed_level(p, losses_of(xs), true);
    if let (Some(g), Some(l)) = (wilder_of(p, gains_of(xs)), wilder_up_of(p, losses_of(xs))) {
        lemma_rsi_value_bounds(g, l);
        if p >= 2 {
            let ls = losses_of(xs);
            assert forall|i: int| 0 <= i < ls.len() implies #[trigger] ls[i] >= 0 by {
                assert(is_level(ls[i]));
            }
            lemma_wilder_up_available(p, ls);
            lemma_wilder_up_zero(p, ls);
            if no_fall(xs) {
                assert forall|i: int| 0 <= i < ls.len() implies #[trigger] ls[i] == 0 by {
                    assert(xs[i + 1] >= xs[i + 1 - 1]);
                }
            }
            if l == 0 {
                assert forall|i: int| 1 <= i < xs.len() implies #[trigger] xs[i] >= xs[i - 1] by {
                    assert(ls[i - 1] == 0);
                }
            }
        }
    }
}

/// No price in `xs` is below the one before it.
pub open spec fn no_fall(xs: Seq<int>) -> bool {
    forall|i: int| 1 <= i < xs.len() ==> #[trigger] xs[i] >= xs[i - 1]
}

/// Gains and losses between levels are levels.
pub proof fn lemma_changes_are_levels(xs: Seq<int>)
    requires
        all_levels(xs),
    ensures
        all_levels(gains_of(xs)),
        all_levels(losses_of(xs)),
{
    if xs.len() > 0 {
        assert forall|i: int| 0 <= i < gains_of(xs).len() implies #[trigger] is_level(
            gains_of(xs)[i],
        ) by {
            assert(is_level(xs[i]) && is_level(xs[i + 1]));
        }
        assert forall|i: int| 0 <= i < losses_of(xs).len() implies #[trigger] is_level(
            losses_of(xs)[i],
        ) by {
            assert(is_level(xs[i]) && is_level(xs[i + 1]));
        }
    }
}

/// Relative strength index over a stream of prices.
pub struct Rsi {
    pub period: usize,
    pub prev_price: Option<i64>,
    pub gains: Wilder,
    pub losses: Wilder,
    pub current_rsi: Option<i64>,
    /// Every price seen so far.
    pub prices: Ghost<Seq<int>>,
}

impl Rsi {
    /// The state is consistent with the prices seen.
    pub open spec fn wf(&self) -> bool {
        &&& self.gains.wf()
        &&& self.losses.wf()
        &&& !self.gains.round_up && self.losses.round_up
        &&& self.gains.period == self.period
        &&& self.losses.period == self.period
        &&& all_levels(self.prices@)
        &&& self.gains.samples@ == gains_of(self.prices@)
        &&& self.losses.samples@ == losses_of(self.prices@)
        &&& (self.prices@.len() == 0 <==> self.prev_price is None)
        &&& (self.prev_price matches Some(q) ==> q as int == self.prices@.last())
        &&& opt_int(self.current_rsi) == rsi_of(self.period as int, self.prices@)
    }

    /// A fresh RSI of the given period; a period of zero or above
    /// `MAX_PERIOD` is refused.
    pub fn new(period: usize) -> (r: Result<Rsi, ConfigError>)
        ensures
            match r {
                Ok(x) => crate::num::period_check(period as int) is Ok && x.wf() && x.period
                    == period && x.prices@ == Seq::<int>::empty(),
                Err(err) => crate::num::period_check(period as int) == Err::<(), ConfigError>(
                    err,
                ),
            },
    {
        let gains = match Wilder::new(period) {
            Ok(w) => w,
            Err(e) => return Err(e),
        };
        let losses = match Wilder::with_rounding(period, true) {
            Ok(w) => w,
            Err(e) => return Err(e),
        };
        let r = Rsi {
            period,
            prev_price: None,
            gains,
            losses,
            current_rsi: None,
            prices: Ghost(Seq::empty()),
        };
        assert(gains_of(r.prices@) =~= Seq::<int>::empty());
        assert(losses_of(r.prices@) =~= Seq::<int>::empty());
        Ok(r)
    }

    /// Feeds one price and returns the RSI after it, in basis points.
    pub fn update(&mut self, price: i64) -> (r: Option<i64>)
        requires
            old(self).wf(),
            is_level(price as int),
        ensures
            final(self).wf(),
            final(self).period == old(self).period,
            final(self).prices@ == old(self).prices@.push(price as int),
            r == final(self).current_rsi,
            opt_int(r) == rsi_of(old(self).period as int, old(self).prices@.push(price as int)),
            r matches Some(v) ==> 0 <= v <= HUNDRED_PERCENT,
            old(self).period >= 2 ==> (r matches Some(v) ==> (v == HUNDRED_PERCENT <==> no_fall(
                final(self).prices@,
            ))),
    {
        let ghost old_xs = self.prices@;
        let ghost xs = old_xs.push(price as int);
        assert(all_levels(xs)) by {
            assert forall|i: int| 0 <= i < xs.len() implies #[trigger] is_level(xs[i]) by {
                if i < old_xs.len() {
                    assert(xs[i] == old_xs[i]);
                }
            }
        }
        match self.prev_price {
            Some(prev) => {
                assert(is_level(old_xs[old_xs.len() - 1]));
                let g: i64 = if price > prev { price - prev } else { 0 };
                let l: i64 = if price < prev { prev - price } else { 0 };
                self.gains.update(g);
                self.losses.update(l);
                assert(gains_of(xs) =~= gains_of(old_xs).push(g as int));
                assert(losses_of(xs) =~= losses_of(old_xs).push(l as int));
            },
            None => {
                assert(gains_of(xs) =~= Seq::<int>::empty());
                assert(losses_of(xs) =~= Seq::<int>::empty());
            },
        }
        self.prev_price = Some(price);
        self.prices = Ghost(xs);
        proof {
            lemma_changes_are_levels(xs);
            lemma_wilder_level(self.period as int, gains_of(xs));
            lemma_smoothed_level(self.period as int, losses_of(xs), true);
        }
        match (self.gains.value, self.losses.value) {
            (Some(g), Some(l)) => {
                proof {
                    lemma_rsi_value_bounds(g as int, l as int);
                }
                let v: i64 = if l == 0 {
                    HUNDRED_PERCENT
                } else {
                    ((HUNDRED_PERCENT as i128 * g as i128) / (g as i128 + l as i128)) as i64
                };
                self.current_rsi = Some(v);
            },
            _ => {
                self.current_rsi = None;
            },
        }
        proof {
            lemma_rsi_bounds(self.period as int, xs);
        }
        self.current_rsi
    }

    /// The current RSI in basis points, if warmed up.
    pub fn get_current_rsi(&self) -> (r: Option<i64>)
        requires
            self.wf(),
        ensures
            opt_int(r) == rsi_of(self.period as int, self.prices@),
    {
        self.current_rsi
    }
}

} // verus!

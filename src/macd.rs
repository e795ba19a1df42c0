//! Moving average convergence/divergence.

use vstd::prelude::*;
use crate::ema::{ema_of, lemma_ema_within, Ema};
use crate::num::{in_range, opt_int, ConfigError};
use crate::smooth::{all_levels, is_level};

verus! {

/// The MACD line after `xs`: fast EMA minus slow EMA, once both exist.
pub open spec fn macd_line_of(fast: int, slow: int, xs: Seq<int>) -> Option<int> {
    match (ema_of(fast, xs), ema_of(slow, xs)) {
        (Some(a), Some(b)) => Some(a - b),
        _ => None,
    }
}

/// Every MACD line value produced along `xs`, oldest first.
pub open spec fn macd_lines_of(fast: int, slow: int, xs: Seq<int>) -> Seq<int>
    decreases xs.len(),
{
    if xs.len() == 0 {
        Seq::empty()
    } else {
        let prev = macd_lines_of(fast, slow, xs.drop_last());
        match macd_line_of(fast, slow, xs) {
            Some(m) => prev.push(m),
            None => prev,
        }
    }
}

/// The signal line after `xs`: the EMA of the MACD line values.
pub open spec fn macd_signal_of(fast: int, slow: int, signal: int, xs: Seq<int>) -> Option<int> {
    ema_of(signal, macd_lines_of(fast, slow, xs))
}

/// The MACD line of prices is in the sample range.
pub proof fn lemma_macd_line_in_range(fast: int, slow: int, xs: Seq<int>)
    requires
        fast >= 1,
        slow >= 1,
        all_levels(xs),
    ensures
        macd_line_of(fast, slow, xs) matches Some(m) ==> in_range(m),
{
    assert forall|i: int| 0 <= i < xs.len() implies 0 <= #[trigger] xs[i]
        <= crate::num::MAX_PRICE as int by {
        assert(is_level(xs[i]));
    }
    lemma_ema_within(fast, xs, 0, crate::num::MAX_PRICE as int);
    lemma_ema_within(slow, xs, 0, crate::num::MAX_PRICE as int);
}

/// MACD with its signal line over a stream of prices.
pub struct Macd {
    pub fast_ema: Ema,
    pub slow_ema: Ema,
    pub signal_ema: Ema,
    pub macd_value: Option<i64>,
    pub signal: Option<i64>,
    /// Every price seen so far.
    pub prices: Ghost<Seq<int>>,
}

impl Macd {
    /// The periods of the three averages.
    pub open spec fn periods(&self) -> (int, int, int) {
        (
            self.fast_ema.period as int,
            self.slow_ema.period as int,
            self.signal_ema.period as int,
        )
    }

    /// The state is consistent with the prices seen.
    pub open spec fn wf(&self) -> bool {
        let (f, s, g) = self.periods();
        &&& self.fast_ema.wf()
        &&& self.slow_ema.wf()
        &&& self.signal_ema.wf()
        &&& all_levels(self.prices@)
        &&& self.fast_ema.samples@ == self.prices@
        &&& self.slow_ema.samples@ == self.prices@
        &&& self.signal_ema.samples@ == macd_lines_of(f, s, self.prices@)
        &&& opt_int(self.macd_value) == macd_line_of(f, s, self.prices@)
        &&& opt_int(self.signal) == macd_signal_of(f, s, g, self.prices@)
    }

    /// A fresh MACD; each period must be accepted by `Ema::new`.
    pub fn new(fast_length: usize, slow_length: usize, signal_length: usize) -> (r: Result<
        Macd,
        ConfigError,
    >)
        ensures
            r is Ok <==> (crate::num::period_check(fast_length as int) is Ok
                && crate::num::period_check(slow_length as int) is Ok
                && crate::num::period_check(signal_length as int) is Ok),
            r matches Err(e) ==> Err::<(), ConfigError>(e) == if crate::num::period_check(
                fast_length as int,
            ) is Err {
                crate::num::period_check(fast_length as int)
            } else if crate::num::period_check(slow_length as int) is Err {
                crate::num::period_check(slow_length as int)
            } else {
                crate::num::period_check(signal_length as int)
            },
            r matches Ok(m) ==> m.wf() && m.periods() == (
                fast_length as int,
                slow_length as int,
                signal_length as int,
            ) && m.prices@ == Seq::<int>::empty(),
    {
        let fast_ema = match Ema::new(fast_length) {
            Ok(e) => e,
            Err(e) => return Err(e),
        };
        let slow_ema = match Ema::new(slow_length) {
            Ok(e) => e,
            Err(e) => return Err(e),
        };
        let signal_ema = match Ema::new(signal_length) {
            Ok(e) => e,
            Err(e) => return Err(e),
        };
        let m = Macd {
            fast_ema,
            slow_ema,
            signal_ema,
            macd_value: None,
            signal: None,
            prices: Ghost(Seq::empty()),
        };
        assert(macd_lines_of(fast_length as int, slow_length as int, m.prices@) =~= Seq::<
            int,
        >::empty());
        Ok(m)
    }

    /// Feeds one price.
    pub fn update(&mut self, price: i64)
        requires
            old(self).wf(),
            is_level(price as int),
        ensures
            final(self).wf(),
            final(self).periods() == old(self).periods(),
            final(self).prices@ == old(self).prices@.push(price as int),
    {
        let ghost (f, s, g) = self.periods();
        let ghost old_xs = self.prices@;
        let ghost xs = old_xs.push(price as int);
        assert(xs.drop_last() =~= old_xs);
        assert(all_levels(xs)) by {
            assert forall|i: int| 0 <= i < xs.len() implies #[trigger] is_level(xs[i]) by {
                if i < old_xs.len() {
                    assert(xs[i] == old_xs[i]);
                }
            }
        }
        let fast = self.fast_ema.update(price);
        let slow = self.slow_ema.update(price);
        proof {
            lemma_macd_line_in_range(f, s, xs);
        }
        match (fast, slow) {
            (Some(a), Some(b)) => {
                let m = a - b;
                self.macd_value = Some(m);
                self.signal = self.signal_ema.update(m);
            },
            _ => {
                self.macd_value = None;
            },
        }
        self.prices = Ghost(xs);
    }

    /// The MACD line, once both averages exist.
    pub fn get_macd_line(&self) -> (r: Option<i64>)
        requires
            self.wf(),
        ensures
            opt_int(r) == macd_line_of(self.periods().0, self.periods().1, self.prices@),
    {
        self.macd_value
    }

    /// The histogram, MACD line minus signal line, once both exist.
    pub fn get_histogram(&self) -> (r: Option<i64>)
        requires
            self.wf(),
        ensures
            opt_int(r) == match (
                macd_line_of(self.periods().0, self.periods().1, self.prices@),
                macd_signal_of(self.periods().0, self.periods().1, self.periods().2, self.prices@),
            ) {
                (Some(m), Some(g)) => Some(m - g),
                _ => None::<int>,
            },
    {
        proof {
            lemma_macd_line_in_range(self.periods().0, self.periods().1, self.prices@);
            crate::ema::lemma_ema_in_range(self.periods().2, self.signal_ema.samples@);
        }
        match (self.macd_value, self.signal) {
            (Some(m), Some(g)) => Some(m - g),
            _ => None,
        }
    }

    /// The signal line, once it exists.
    pub fn get_signal_line(&self) -> (r: Option<i64>)
        requires
            self.wf(),
        ensures
            opt_int(r) == macd_signal_of(
                self.periods().0,
                self.periods().1,
                self.periods().2,
                self.prices@,
            ),
    {
        self.signal
    }
}

} // verus!

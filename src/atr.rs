//! Average true range.

use vstd::prelude::*;
use crate::num::{opt_int, period_check, ConfigError};
use crate::smooth::{all_levels, is_level, lemma_wilder_level, wilder_of, Wilder};

verus! {

/// A bar as the range indicators read it: high, low and close.
pub type HlcModel = (int, int, int);

/// A bar whose prices are levels and whose low does not exceed its high.
pub open spec fn valid_hlc(b: HlcModel) -> bool {
    is_level(b.0) && is_level(b.1) && is_level(b.2) && b.1 <= b.0
}

/// Every bar of `bars` is valid.
pub open spec fn all_valid_hlc(bars: Seq<HlcModel>) -> bool {
    forall|i: int| 0 <= i < bars.len() ==> #[trigger] valid_hlc(bars[i])
}

/// Absolute value.
pub open spec fn abs(x: int) -> int {
    if x < 0 {
        -x
    } else {
        x
    }
}

/// Largest of three.
pub open spec fn max3(a: int, b: int, c: int) -> int {
    if a >= b && a >= c {
        a
    } else if b >= c {
        b
    } else {
        c
    }
}

/// True range of a bar after a previous close:
/// `max(high - low, |high - prev_close|, |low - prev_close|)`.
pub open spec fn true_range(high: int, low: int, prev_close: int) -> int {
    max3(high - low, abs(high - prev_close), abs(low - prev_close))
}

/// The true range of each bar; the first bar, having no previous close,
/// contributes its high minus its low.
pub open spec fn true_ranges_of(bars: Seq<HlcModel>) -> Seq<int> {
    Seq::new(
        bars.len(),
        |i: int|
            if i == 0 {
                bars[i].0 - bars[i].1
            } else {
                true_range(bars[i].0, bars[i].1, bars[i - 1].2)
            },
    )
}

/// ATR of period `p` after `bars`: Wilder's average of the true ranges.
pub open spec fn atr_of(p: int, bars: Seq<HlcModel>) -> Option<int> {
    wilder_of(p, true_ranges_of(bars))
}

/// ATR of period `p` is unavailable for the first `p - 1` bars and defined
/// from the `p`-th bar on.
pub proof fn lemma_atr_available(p: int, bars: Seq<HlcModel>)
    requires
        p >= 1,
    ensures
        atr_of(p, bars) is Some <==> bars.len() >= p,
{
    crate::smooth::lemma_wilder_available(p, true_ranges_of(bars));
}

/// The true range of valid bars is a level.
pub proof fn lemma_true_range_level(high: int, low: int, prev_close: int)
    requires
        valid_hlc((high, low, prev_close)),
    ensures
        is_level(true_range(high, low, prev_close)),
{
}

/// True ranges of valid bars are levels.
pub proof fn lemma_true_ranges_levels(bars: Seq<HlcModel>)
    requires
        all_valid_hlc(bars),
    ensures
        all_levels(true_ranges_of(bars)),
{
    assert forall|i: int| 0 <= i < bars.len() implies #[trigger] is_level(
        true_ranges_of(bars)[i],
    ) by {
        assert(valid_hlc(bars[i]));
        if i > 0 {
            assert(valid_hlc(bars[i - 1]));
        }
    }
}

/// True range computed.
pub fn true_range_exec(high: i64, low: i64, prev_close: i64) -> (r: i64)
    requires
        valid_hlc((high as int, low as int, prev_close as int)),
    ensures
        r as int == true_range(high as int, low as int, prev_close as int),
{
    let hl = high - low;
    let hc = if high >= prev_close { high - prev_close } else { prev_close - high };
    let lc = if low >= prev_close { low - prev_close } else { prev_close - low };
    if hl >= hc && hl >= lc {
        hl
    } else if hc >= lc {
        hc
    } else {
        lc
    }
}

/// Average true range over a stream of bars.
pub struct Atr {
    pub period: usize,
    pub prev_close: Option<i64>,
    pub ranges: Wilder,
    /// Every bar seen so far.
    pub bars: Ghost<Seq<HlcModel>>,
}

impl Atr {
    /// The state is consistent with the bars seen.
    pub open spec fn wf(&self) -> bool {
        &&& self.ranges.wf()
        &&& !self.ranges.round_up
        &&& self.ranges.period == self.period
        &&& all_valid_hlc(self.bars@)
        &&& self.ranges.samples@ == true_ranges_of(self.bars@)
        &&& (self.bars@.len() == 0 <==> self.prev_close is None)
        &&& (self.prev_close matches Some(c) ==> c as int == self.bars@.last().2)
    }

    /// The current ATR as a mathematical value.
    pub open spec fn value_spec(&self) -> Option<int> {
        atr_of(self.period as int, self.bars@)
    }

    /// A fresh ATR of the given period; a period of zero or above
    /// `MAX_PERIOD` is refused.
    pub fn new(period: usize) -> (r: Result<Atr, ConfigError>)
        ensures
            match r {
                Ok(a) => period_check(period as int) is Ok && a.wf() && a.period == period
                    && a.bars@ == Seq::<HlcModel>::empty(),
                Err(err) => period_check(period as int) == Err::<(), ConfigError>(err),
            },
    {
        let ranges = match Wilder::new(period) {
            Ok(w) => w,
            Err(e) => return Err(e),
        };
        let a = Atr { period, prev_close: None, ranges, bars: Ghost(Seq::empty()) };
        assert(true_ranges_of(a.bars@) =~= Seq::<int>::empty());
        Ok(a)
    }

    /// Feeds one bar.
    pub fn update(&mut self, high: i64, low: i64, close: i64)
        requires
            old(self).wf(),
            valid_hlc((high as int, low as int, close as int)),
        ensures
            final(self).wf(),
            final(self).period == old(self).period,
            final(self).bars@ == old(self).bars@.push((high as int, low as int, close as int)),
    {
        let ghost old_bars = self.bars@;
        let ghost bars = old_bars.push((high as int, low as int, close as int));
        assert(all_valid_hlc(bars)) by {
            assert forall|i: int| 0 <= i < bars.len() implies #[trigger] valid_hlc(bars[i]) by {
                if i < old_bars.len() {
                    assert(bars[i] == old_bars[i]);
                }
            }
        }
        let tr = match self.prev_close {
            Some(c) => {
                assert(valid_hlc(old_bars[old_bars.len() - 1]));
                true_range_exec(high, low, c)
            },
            None => high - low,
        };
        assert(true_ranges_of(bars) =~= true_ranges_of(old_bars).push(tr as int));
        self.ranges.update(tr);
        self.prev_close = Some(close);
        self.bars = Ghost(bars);
    }

    /// The current ATR, if warmed up.
    pub fn get_atr(&self) -> (r: Option<i64>)
        requires
            self.wf(),
        ensures
            opt_int(r) == atr_of(self.period as int, self.bars@),
            r matches Some(v) ==> is_level(v as int),
    {
        proof {
            lemma_true_ranges_levels(self.bars@);
            lemma_wilder_level(self.period as int, true_ranges_of(self.bars@));
        }
        self.ranges.value
    }
}

} // verus!

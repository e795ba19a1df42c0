//! Average directional index.

use vstd::prelude::*;
use crate::atr::{abs, all_valid_hlc, lemma_true_range_level, true_range, true_range_exec, valid_hlc, HlcModel};
use crate::num::{lemma_div_within, opt_int, period_check, ConfigError, HUNDRED_PERCENT};
use crate::smooth::{all_levels, is_level, lemma_wilder_level, wilder_of, Wilder};

verus! {

/// Upward directional movement from bar `a` to bar `b`: the rise of the
/// high, when it exceeds the fall of the low and is positive; else zero.
/// When the two moves are equal, both directional movements are zero.
pub open spec fn plus_dm(a: HlcModel, b: HlcModel) -> int {
    let up = b.0 - a.0;
    let down = a.1 - b.1;
    if up > down && up > 0 {
        up
    } else {
        0
    }
}

/// Downward directional movement from bar `a` to bar `b`, symmetric to
/// `plus_dm`.
pub open spec fn minus_dm(a: HlcModel, b: HlcModel) -> int {
    let up = b.0 - a.0;
    let down = a.1 - b.1;
    if down > up && down > 0 {
        down
    } else {
        0
    }
}

/// The upward movements between consecutive bars.
pub open spec fn plus_dms_of(bars: Seq<HlcModel>) -> Seq<int> {
    if bars.len() == 0 {
        Seq::empty()
    } else {
        Seq::new((bars.len() - 1) as nat, |i: int| plus_dm(bars[i], bars[i + 1]))
    }
}

/// The downward movements between consecutive bars.
pub open spec fn minus_dms_of(bars: Seq<HlcModel>) -> Seq<int> {
    if bars.len() == 0 {
        Seq::empty()
    } else {
        Seq::new((bars.len() - 1) as nat, |i: int| minus_dm(bars[i], bars[i + 1]))
    }
}

/// The true ranges between consecutive bars.
pub open spec fn ranges_of(bars: Seq<HlcModel>) -> Seq<int> {
    if bars.len() == 0 {
        Seq::empty()
    } else {
        Seq::new((bars.len() - 1) as nat, |i: int| true_range(bars[i + 1].0, bars[i + 1].1, bars[i].2))
    }
}

/// A directional index in basis points: `100 * dm / tr`, or 0 when the
/// range is 0.
pub open spec fn di(dm: int, tr: int) -> int {
    if tr == 0 {
        0
    } else {
        HUNDRED_PERCENT as int * dm / tr
    }
}

/// The directional movement index in basis points:
/// `100 * |+DI - -DI| / (+DI + -DI)`, or 0 when both are 0.
pub open spec fn dx(pdi: int, ndi: int) -> int {
    if pdi + ndi == 0 {
        0
    } else {
        HUNDRED_PERCENT as int * abs(pdi - ndi) / (pdi + ndi)
    }
}

/// DX after `bars`, once the smoothed movements and range exist.
pub open spec fn dx_after(p: int, bars: Seq<HlcModel>) -> Option<int> {
    match (
        wilder_of(p, plus_dms_of(bars)),
        wilder_of(p, minus_dms_of(bars)),
        wilder_of(p, ranges_of(bars)),
    ) {
        (Some(a), Some(b), Some(t)) => Some(dx(di(a, t), di(b, t))),
        _ => None,
    }
}

/// Every DX value produced along `bars`, oldest first.
pub open spec fn dxs_of(p: int, bars: Seq<HlcModel>) -> Seq<int>
    decreases bars.len(),
{
    if bars.len() == 0 {
        Seq::empty()
    } else {
        let prev = dxs_of(p, bars.drop_last());
        match dx_after(p, bars) {
            Some(v) => prev.push(v),
            None => prev,
        }
    }
}

/// ADX of period `p` after `bars`: Wilder's average of the DX values.
pub open spec fn adx_of(p: int, bars: Seq<HlcModel>) -> Option<int> {
    wilder_of(p, dxs_of(p, bars))
}

/// DX lies in `[0, 100]`.
pub proof fn lemma_dx_bounds(pdi: int, ndi: int)
    requires
        pdi >= 0,
        ndi >= 0,
    ensures
        0 <= dx(pdi, ndi) <= HUNDRED_PERCENT as int,
{
    if pdi + ndi != 0 {
        let h = HUNDRED_PERCENT as int;
        let s = pdi + ndi;
        let x = h * abs(pdi - ndi);
        assert(s * 0 <= x <= s * h) by (nonlinear_arith)
            requires
                pdi >= 0,
                ndi >= 0,
                s == pdi + ndi,
                h > 0,
                x == h * abs(pdi - ndi),
                abs(pdi - ndi) <= s,
                abs(pdi - ndi) >= 0,
        ;
        lemma_div_within(x, s, 0, h);
    }
}

/// Average directional index over a stream of bars.
pub struct Adx {
    pub period: usize,
    /// High, low and close of the previous bar.
    pub prev: Option<(i64, i64, i64)>,
    pub plus: Wilder,
    pub minus: Wilder,
    pub range: Wilder,
    pub dx: Wilder,
    /// Every bar seen so far.
    pub bars: Ghost<Seq<HlcModel>>,
}

impl Adx {
    /// The averages follow from the bars seen.
    pub open spec fn wf(&self) -> bool {
        let p = self.period as int;
        &&& self.plus.wf() && self.minus.wf() && self.range.wf() && self.dx.wf()
        &&& !self.plus.round_up && !self.minus.round_up && !self.range.round_up
            && !self.dx.round_up
        &&& self.plus.period == self.period && self.minus.period == self.period
        &&& self.range.period == self.period && self.dx.period == self.period
        &&& all_valid_hlc(self.bars@)
        &&& self.plus.samples@ == plus_dms_of(self.bars@)
        &&& self.minus.samples@ == minus_dms_of(self.bars@)
        &&& self.range.samples@ == ranges_of(self.bars@)
        &&& self.dx.samples@ == dxs_of(p, self.bars@)
        &&& (self.bars@.len() == 0 <==> self.prev is None)
        &&& (self.prev matches Some(b) ==> (b.0 as int, b.1 as int, b.2 as int)
            == self.bars@.last())
    }

    /// A fresh ADX of the given period; a period of zero or above
    /// `MAX_PERIOD` is refused.
    pub fn new(period: usize) -> (r: Result<Adx, ConfigError>)
        ensures
            match r {
                Ok(a) => period_check(period as int) is Ok && a.wf() && a.period == period
                    && a.bars@ == Seq::<HlcModel>::empty(),
                Err(err) => period_check(period as int) == Err::<(), ConfigError>(err),
            },
    {
        let plus = match Wilder::new(period) {
            Ok(w) => w,
            Err(e) => return Err(e),
        };
        let minus = match Wilder::new(period) {
            Ok(w) => w,
            Err(e) => return Err(e),
        };
        let range = match Wilder::new(period) {
            Ok(w) => w,
            Err(e) => return Err(e),
        };
        let dx = match Wilder::new(period) {
            Ok(w) => w,
            Err(e) => return Err(e),
        };
        let a = Adx { period, prev: None, plus, minus, range, dx, bars: Ghost(Seq::empty()) };
        assert(plus_dms_of(a.bars@) =~= Seq::<int>::empty());
        assert(minus_dms_of(a.bars@) =~= Seq::<int>::empty());
        assert(ranges_of(a.bars@) =~= Seq::<int>::empty());
        Ok(a)
    }

    /// Feeds one bar.
    pub fn update(&mut self, current_high: i64, current_low: i64, current_close: i64)
        requires
            old(self).wf(),
            valid_hlc((current_high as int, current_low as int, current_close as int)),
        ensures
            final(self).wf(),
            final(self).period == old(self).period,
            final(self).bars@ == old(self).bars@.push(
                (current_high as int, current_low as int, current_close as int),
            ),
    {
        let ghost p = self.period as int;
        let ghost old_bars = self.bars@;
        let ghost cur: HlcModel = (current_high as int, current_low as int, current_close as int);
        let ghost bars = old_bars.push(cur);
        assert(bars.drop_last() =~= old_bars);
        assert(all_valid_hlc(bars)) by {
            assert forall|i: int| 0 <= i < bars.len() implies #[trigger] valid_hlc(bars[i]) by {
                if i < old_bars.len() {
                    assert(bars[i] == old_bars[i]);
                }
            }
        }
        match self.prev {
            Some((ph, pl, pc)) => {
                assert(valid_hlc(old_bars[old_bars.len() - 1]));
                let up = current_high - ph;
                let down = pl - current_low;
                let pdm: i64 = if up > down && up > 0 { up } else { 0 };
                let ndm: i64 = if down > up && down > 0 { down } else { 0 };
                let tr = true_range_exec(current_high, current_low, pc);
                proof {
                    lemma_true_range_level(current_high as int, current_low as int, pc as int);
                }
                self.plus.update(pdm);
                self.minus.update(ndm);
                self.range.update(tr);
                assert(plus_dms_of(bars) =~= plus_dms_of(old_bars).push(pdm as int));
                assert(minus_dms_of(bars) =~= minus_dms_of(old_bars).push(ndm as int));
                assert(ranges_of(bars) =~= ranges_of(old_bars).push(tr as int));
                match (self.plus.value, self.minus.value, self.range.value) {
                    (Some(a), Some(b), Some(t)) => {
                        proof {
                            lemma_levels_of_moves(bars);
                            lemma_wilder_level(p, plus_dms_of(bars));
                            lemma_wilder_level(p, minus_dms_of(bars));
                            lemma_wilder_level(p, ranges_of(bars));
                        }
                        let pdi = di_exec(a, t);
                        let ndi = di_exec(b, t);
                        let v = dx_exec(pdi, ndi);
                        self.dx.update(v);
                    },
                    _ => {},
                }
            },
            None => {
                assert(plus_dms_of(bars) =~= Seq::<int>::empty());
                assert(minus_dms_of(bars) =~= Seq::<int>::empty());
                assert(ranges_of(bars) =~= Seq::<int>::empty());
            },
        }
        self.prev = Some((current_high, current_low, current_close));
        self.bars = Ghost(bars);
    }

    /// The current ADX in basis points, once warmed up.
    pub fn get_adx(&self) -> (r: Option<i64>)
        requires
            self.wf(),
        ensures
            opt_int(r) == adx_of(self.period as int, self.bars@),
    {
        self.dx.value
    }
}

/// Movements and ranges between valid bars are levels.
pub proof fn lemma_levels_of_moves(bars: Seq<HlcModel>)
    requires
        all_valid_hlc(bars),
    ensures
        all_levels(plus_dms_of(bars)),
        all_levels(minus_dms_of(bars)),
        all_levels(ranges_of(bars)),
{
    if bars.len() > 0 {
        let a = plus_dms_of(bars);
        let b = minus_dms_of(bars);
        let c = ranges_of(bars);
        assert forall|i: int| 0 <= i < a.len() implies #[trigger] is_level(a[i]) by {
            assert(valid_hlc(bars[i]) && valid_hlc(bars[i + 1]));
        }
        assert forall|i: int| 0 <= i < b.len() implies #[trigger] is_level(b[i]) by {
            assert(valid_hlc(bars[i]) && valid_hlc(bars[i + 1]));
        }
        assert forall|i: int| 0 <= i < c.len() implies #[trigger] is_level(c[i]) by {
            assert(valid_hlc(bars[i]) && valid_hlc(bars[i + 1]));
            lemma_true_range_level(bars[i + 1].0, bars[i + 1].1, bars[i].2);
        }
    }
}

/// A directional index, computed.
fn di_exec(dm: i64, tr: i64) -> (r: i64)
    requires
        is_level(dm as int),
        is_level(tr as int),
    ensures
        r as int == di(dm as int, tr as int),
        r >= 0,
        r <= HUNDRED_PERCENT as int * crate::num::MAX_PRICE as int,
{
    if tr == 0 {
        0
    } else {
        proof {
            let h = HUNDRED_PERCENT as int;
            let m = crate::num::MAX_PRICE as int;
            assert(tr * 0 <= h * dm <= tr * (h * m)) by (nonlinear_arith)
                requires
                    0 <= dm <= m,
                    1 <= tr,
                    h > 0,
            ;
            lemma_div_within(h * dm, tr as int, 0, h * m);
        }
        ((HUNDRED_PERCENT as i128 * dm as i128) / tr as i128) as i64
    }
}

/// DX, computed.
fn dx_exec(pdi: i64, ndi: i64) -> (r: i64)
    requires
        0 <= pdi <= HUNDRED_PERCENT as int * crate::num::MAX_PRICE as int,
        0 <= ndi <= HUNDRED_PERCENT as int * crate::num::MAX_PRICE as int,
    ensures
        r as int == dx(pdi as int, ndi as int),
        is_level(r as int),
{
    proof {
        lemma_dx_bounds(pdi as int, ndi as int);
    }
    let s = pdi as i128 + ndi as i128;
    if s == 0 {
        0
    } else {
        let d = if pdi >= ndi { pdi as i128 - ndi as i128 } else { ndi as i128 - pdi as i128 };
        ((HUNDRED_PERCENT as i128 * d) / s) as i64
    }
}

} // verus!

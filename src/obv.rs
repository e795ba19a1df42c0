//! On-balance volume.

use vstd::prelude::*;
use crate::ema::{ema_of, Ema};
use crate::num::{in_range, MAX_PRICE};
use crate::signal::{cross, TradeSignal};
use crate::smooth::is_level;

verus! {

/// Period of the average that OBV is compared with.
pub const OBV_TREND_PERIOD: usize = 9;

/// Why a sample was refused.
#[derive(Debug, Clone, Copy, PartialEq, Eq, Structural)]
pub enum SampleError {
    /// The price is negative or above `MAX_PRICE`.
    BadPrice,
    /// The running total would leave the sample range.
    OutOfRange,
}

/// OBV after one more bar: the first bar sets it to its volume; later bars
/// add their volume on a higher close, subtract it on a lower one, and
/// leave it on an equal one.
pub open spec fn obv_step(obv: int, prev_close: Option<i64>, close: int, volume: int) -> int {
    match prev_close {
        None => volume,
        Some(p) => if close > p {
            obv + volume
        } else if close < p {
            obv - volume
        } else {
            obv
        },
    }
}

/// On-balance volume with its moving average.
pub struct Obv {
    pub obv: i64,
    pub obv_ema: Ema,
    pub prev_close: Option<i64>,
}

impl Obv {
    /// The average has seen every OBV value, the latest being the current one.
    pub open spec fn wf(&self) -> bool {
        &&& self.obv_ema.wf()
        &&& self.obv_ema.period == OBV_TREND_PERIOD
        &&& (self.prev_close is None <==> self.obv_ema.samples@.len() == 0)
        &&& (self.prev_close matches Some(p) ==> is_level(p as int))
        &&& (self.obv_ema.samples@.len() > 0 ==> self.obv as int == self.obv_ema.samples@.last())
        &&& (self.obv_ema.samples@.len() == 0 ==> self.obv == 0)
    }

    /// No bar seen yet.
    pub fn new() -> (r: Obv)
        ensures
            r.wf(),
            r.prev_close is None,
    {
        let obv_ema = match Ema::new(OBV_TREND_PERIOD) {
            Ok(e) => e,
            Err(_) => vstd::pervasive::unreached(),
        };
        Obv { obv: 0, obv_ema, prev_close: None }
    }

    /// Takes one bar's close and volume. A bad close, or a total that would
    /// leave the sample range, is refused and changes nothing.
    pub fn update(&mut self, new_close: i64, new_volume: u64) -> (r: Result<(), SampleError>)
        requires
            old(self).wf(),
        ensures
            final(self).wf(),
            ({
                let next = obv_step(
                    old(self).obv as int,
                    old(self).prev_close,
                    new_close as int,
                    new_volume as int,
                );
                if !is_level(new_close as int) {
                    r == Err::<(), SampleError>(SampleError::BadPrice) && *final(self) == *old(self)
                } else if !in_range(next) {
                    r == Err::<(), SampleError>(SampleError::OutOfRange) && *final(self) == *old(
                        self,
                    )
                } else {
                    &&& r is Ok
                    &&& final(self).obv as int == next
                    &&& final(self).prev_close == Some(new_close)
                    &&& final(self).obv_ema.samples@ == old(self).obv_ema.samples@.push(next)
                }
            }),
    {
        if new_close < 0 || new_close > MAX_PRICE {
            return Err(SampleError::BadPrice);
        }
        let obv = self.obv as i128;
        let vol = new_volume as i128;
        let next: i128 = match self.prev_close {
            None => vol,
            Some(p) => if new_close > p {
                obv + vol
            } else if new_close < p {
                obv - vol
            } else {
                obv
            },
        };
        if next < -(MAX_PRICE as i128) || next > MAX_PRICE as i128 {
            return Err(SampleError::OutOfRange);
        }
        self.obv = next as i64;
        self.prev_close = Some(new_close);
        self.obv_ema.update(self.obv);
        Ok(())
    }

    /// Buy when OBV is above its average, Sell when below, Hold when equal
    /// or while the average is unavailable.
    pub fn get_trend(&self) -> (r: TradeSignal)
        requires
            self.wf(),
        ensures
            r == cross(Some(self.obv as int), ema_of(OBV_TREND_PERIOD as int, self.obv_ema.samples@)),
    {
        match self.obv_ema.get_ema() {
            Some(e) => if self.obv > e {
                TradeSignal::Buy
            } else if self.obv < e {
                TradeSignal::Sell
            } else {
                TradeSignal::Hold
            },
            None => TradeSignal::Hold,
        }
    }
}

} // verus!

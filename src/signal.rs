//! The per-symbol signal engine: indicators, warm-up, and confirmation.

use vstd::prelude::*;
use crate::atr::Atr;
use crate::candle::Candlestick;
use crate::ema::{ema_of, Ema};
use crate::macd::{macd_line_of, macd_signal_of, Macd};
use crate::num::{period_check, ConfigError, MAX_PERIOD, MAX_STOP_MULTIPLE};
use crate::smooth::is_level;

verus! {

/// A trading decision.
#[derive(Debug, Clone, Copy, PartialEq, Eq, Structural)]
pub enum TradeSignal {
    Buy,
    Sell,
    Hold,
}

impl TradeSignal {
    /// The decision's name.
    pub fn as_str(&self) -> (r: &'static str)
        ensures
            r@ == match *self {
                TradeSignal::Buy => seq!['B', 'u', 'y'],
                TradeSignal::Sell => seq!['S', 'e', 'l', 'l'],
                TradeSignal::Hold => seq!['H', 'o', 'l', 'd'],
            },
    {
        match self {
            TradeSignal::Buy => {
                proof { reveal_strlit("Buy"); }
                "Buy"
            },
            TradeSignal::Sell => {
                proof { reveal_strlit("Sell"); }
                "Sell"
            },
            TradeSignal::Hold => {
                proof { reveal_strlit("Hold"); }
                "Hold"
            },
        }
    }
}

/// Buy when `a` is above `b`, Sell when below, Hold when equal or when
/// either is unavailable.
pub open spec fn cross(a: Option<int>, b: Option<int>) -> TradeSignal {
    match (a, b) {
        (Some(x), Some(y)) => if x > y {
            TradeSignal::Buy
        } else if x < y {
            TradeSignal::Sell
        } else {
            TradeSignal::Hold
        },
        _ => TradeSignal::Hold,
    }
}

/// The effective bias of a confirmation window: Buy if any Buy is in it,
/// else the most recent entry (Hold when empty).
pub open spec fn bias_of(window: Seq<TradeSignal>) -> TradeSignal {
    if window.contains(TradeSignal::Buy) {
        TradeSignal::Buy
    } else if window.len() == 0 {
        TradeSignal::Hold
    } else {
        window.last()
    }
}

/// Buy when bias and confirmation both say Buy, Sell when both say Sell,
/// Hold otherwise.
pub open spec fn combine(bias: TradeSignal, confirm: TradeSignal) -> TradeSignal {
    if bias == TradeSignal::Buy && confirm == TradeSignal::Buy {
        TradeSignal::Buy
    } else if bias == TradeSignal::Sell && confirm == TradeSignal::Sell {
        TradeSignal::Sell
    } else {
        TradeSignal::Hold
    }
}

/// The last `n` entries of `s` (all of them when there are fewer).
pub open spec fn last_n(s: Seq<TradeSignal>, n: int) -> Seq<TradeSignal> {
    if s.len() <= n {
        s
    } else {
        s.subrange(s.len() - n, s.len() as int)
    }
}

/// Tunables of the signal engine.
#[derive(Debug, Clone, Copy, PartialEq, Eq, Structural)]
pub struct EngineConfig {
    /// MACD fast, slow and signal periods.
    pub macd_fast: usize,
    pub macd_slow: usize,
    pub macd_signal: usize,
    /// Period of the price EMA that confirms the trend.
    pub trend_period: usize,
    /// Period of the ATR that sizes the stop.
    pub atr_period: usize,
    /// How many recent MACD signals the confirmation window keeps.
    pub confirm_window: usize,
    /// Bars to see before any signal other than Hold.
    pub warmup: usize,
    /// The stop distance is `ATR * stop_num / stop_den`.
    pub stop_num: i64,
    pub stop_den: i64,
}

/// The verdict on a configuration.
pub open spec fn config_check(c: EngineConfig) -> Result<(), ConfigError> {
    if period_check(c.macd_fast as int) is Err {
        period_check(c.macd_fast as int)
    } else if period_check(c.macd_slow as int) is Err {
        period_check(c.macd_slow as int)
    } else if period_check(c.macd_signal as int) is Err {
        period_check(c.macd_signal as int)
    } else if period_check(c.trend_period as int) is Err {
        period_check(c.trend_period as int)
    } else if period_check(c.atr_period as int) is Err {
        period_check(c.atr_period as int)
    } else if period_check(c.confirm_window as int) is Err {
        period_check(c.confirm_window as int)
    } else if c.warmup > MAX_PERIOD {
        Err(ConfigError::PeriodTooLarge)
    } else if c.stop_den <= 0 || c.stop_num < 0 || c.stop_num > MAX_STOP_MULTIPLE * c.stop_den {
        Err(ConfigError::BadMultiplier)
    } else {
        Ok(())
    }
}

/// The configuration the agent runs with.
pub open spec fn default_engine_config() -> EngineConfig {
    EngineConfig {
        macd_fast: 12,
        macd_slow: 21,
        macd_signal: 9,
        trend_period: 20,
        atr_period: 14,
        confirm_window: 5,
        warmup: 30,
        stop_num: 5,
        stop_den: 4,
    }
}

/// The configuration the agent runs with: MACD(12, 21, 9), a 20-bar trend
/// EMA, a 14-bar ATR with the stop at 1.25 ATR, five confirmation slots and
/// a 30-bar warm-up.
pub fn default_config() -> (r: EngineConfig)
    ensures
        r == default_engine_config(),
        config_check(r) is Ok,
{
    EngineConfig {
        macd_fast: 12,
        macd_slow: 21,
        macd_signal: 9,
        trend_period: 20,
        atr_period: 14,
        confirm_window: 5,
        warmup: 30,
        stop_num: 5,
        stop_den: 4,
    }
}

/// The trend indicators: MACD for direction, a price EMA to confirm.
pub struct TradingIndicator {
    pub macd: Macd,
    pub price_ema: Ema,
}

impl TradingIndicator {
    /// Both indicators are consistent and have seen the same prices.
    pub open spec fn wf(&self) -> bool {
        &&& self.macd.wf()
        &&& self.price_ema.wf()
        &&& self.price_ema.samples@ == self.macd.prices@
    }

    /// The MACD signal now: line against signal line.
    pub open spec fn macd_signal_spec(&self) -> TradeSignal {
        let (f, s, g) = self.macd.periods();
        cross(macd_line_of(f, s, self.macd.prices@), macd_signal_of(f, s, g, self.macd.prices@))
    }

    /// The EMA signal at `price`: price against its average.
    pub open spec fn ema_signal_spec(&self, price: i64) -> TradeSignal {
        cross(Some(price as int), ema_of(self.price_ema.period as int, self.price_ema.samples@))
    }

    /// Indicators of the given periods, each checked as `Ema::new` does.
    pub fn with_periods(fast: usize, slow: usize, signal: usize, trend: usize) -> (r: Result<
        TradingIndicator,
        ConfigError,
    >)
        ensures
            r matches Ok(t) ==> t.wf() && t.macd.periods() == (fast as int, slow as int, signal as int)
                && t.price_ema.period == trend && t.macd.prices@ == Seq::<int>::empty(),
            r is Ok <==> (period_check(fast as int) is Ok && period_check(slow as int) is Ok
                && period_check(signal as int) is Ok && period_check(trend as int) is Ok),
            r matches Err(e) ==> Err::<(), ConfigError>(e) == if period_check(fast as int) is Err {
                period_check(fast as int)
            } else if period_check(slow as int) is Err {
                period_check(slow as int)
            } else if period_check(signal as int) is Err {
                period_check(signal as int)
            } else {
                period_check(trend as int)
            },
    {
        let macd = match Macd::new(fast, slow, signal) {
            Ok(m) => m,
            Err(e) => return Err(e),
        };
        let price_ema = match Ema::new(trend) {
            Ok(e) => e,
            Err(e) => return Err(e),
        };
        Ok(TradingIndicator { macd, price_ema })
    }

    /// The default indicators: MACD(12, 21, 9) and a 20-bar EMA.
    pub fn new() -> (r: TradingIndicator)
        ensures
            r.wf(),
            r.macd.periods() == (12int, 21int, 9int),
            r.price_ema.period == 20,
            r.macd.prices@ == Seq::<int>::empty(),
    {
        match TradingIndicator::with_periods(12, 21, 9, 20) {
            Ok(t) => t,
            Err(_) => vstd::pervasive::unreached(),
        }
    }

    /// Feeds one closing price to both indicators.
    pub fn update(&mut self, current_price: i64)
        requires
            old(self).wf(),
            is_level(current_price as int),
        ensures
            final(self).wf(),
            final(self).macd.periods() == old(self).macd.periods(),
            final(self).price_ema.period == old(self).price_ema.period,
            final(self).macd.prices@ == old(self).macd.prices@.push(current_price as int),
    {
        self.macd.update(current_price);
        self.price_ema.update(current_price);
    }

    /// Buy when the MACD line is above its signal line, Sell when below.
    pub fn get_macd_signal(&self) -> (r: TradeSignal)
        requires
            self.wf(),
        ensures
            r == self.macd_signal_spec(),
    {
        match (self.macd.get_macd_line(), self.macd.get_signal_line()) {
            (Some(line), Some(sig)) => if line > sig {
                TradeSignal::Buy
            } else if line < sig {
                TradeSignal::Sell
            } else {
                TradeSignal::Hold
            },
            _ => TradeSignal::Hold,
        }
    }

    /// Buy when `price` is above its EMA, Sell when below.
    pub fn get_ema_signal(&self, price: i64) -> (r: TradeSignal)
        requires
            self.wf(),
        ensures
            r == self.ema_signal_spec(price),
    {
        match self.price_ema.get_ema() {
            Some(e) => if e < price {
                TradeSignal::Buy
            } else if e > price {
                TradeSignal::Sell
            } else {
                TradeSignal::Hold
            },
            None => TradeSignal::Hold,
        }
    }
}

/// The signal engine of one symbol.
pub struct TradingBot {
    pub long_trading: TradingIndicator,
    pub atr: Atr,
    /// Cleared after a buy is placed; set again by a Sell signal.
    pub can_trade: bool,
    /// The most recent MACD signals, oldest first.
    pub lastest_macd_signals: Vec<TradeSignal>,
    /// Bars seen, counted up to `config.warmup`.
    pub bars_seen: usize,
    pub config: EngineConfig,
    /// Every MACD signal produced so far, oldest first.
    pub primaries: Ghost<Seq<TradeSignal>>,
}

impl TradingBot {
    /// The engine is consistent with its configuration and history.
    pub open spec fn wf(&self) -> bool {
        &&& config_check(self.config) is Ok
        &&& self.long_trading.wf()
        &&& self.atr.wf()
        &&& self.long_trading.macd.periods() == (
            self.config.macd_fast as int,
            self.config.macd_slow as int,
            self.config.macd_signal as int,
        )
        &&& self.long_trading.price_ema.period == self.config.trend_period
        &&& self.atr.period == self.config.atr_period
        &&& self.bars_seen <= self.config.warmup
        &&& self.lastest_macd_signals@ == last_n(
            self.primaries@,
            self.config.confirm_window as int,
        )
    }

    /// The signal `get_signal(price)` gives in this state.
    pub open spec fn signal_spec(&self, price: i64) -> TradeSignal {
        if self.bars_seen < self.config.warmup {
            TradeSignal::Hold
        } else {
            combine(
                bias_of(self.lastest_macd_signals@),
                self.long_trading.ema_signal_spec(price),
            )
        }
    }

    /// An engine with the given configuration, or why it is refused.
    pub fn with_config(config: EngineConfig) -> (r: Result<TradingBot, ConfigError>)
        ensures
            r is Ok <==> config_check(config) is Ok,
            r matches Err(e) ==> config_check(config) == Err::<(), ConfigError>(e),
            r matches Ok(b) ==> b.wf() && b.config == config && b.bars_seen == 0 && b.can_trade
                && b.primaries@ == Seq::<TradeSignal>::empty(),
    {
        let long_trading = match TradingIndicator::with_periods(
            config.macd_fast,
            config.macd_slow,
            config.macd_signal,
            config.trend_period,
        ) {
            Ok(t) => t,
            Err(e) => return Err(e),
        };
        let atr = match Atr::new(config.atr_period) {
            Ok(a) => a,
            Err(e) => return Err(e),
        };
        match crate::num::check_period(config.confirm_window) {
            Ok(()) => {},
            Err(e) => return Err(e),
        }
        if config.warmup > MAX_PERIOD {
            return Err(ConfigError::PeriodTooLarge);
        }
        if config.stop_den <= 0 || config.stop_num < 0 || config.stop_num as i128
            > MAX_STOP_MULTIPLE as i128 * config.stop_den as i128 {
            return Err(ConfigError::BadMultiplier);
        }
        let b = TradingBot {
            long_trading,
            atr,
            can_trade: true,
            lastest_macd_signals: Vec::new(),
            bars_seen: 0,
            config,
            primaries: Ghost(Seq::empty()),
        };
        Ok(b)
    }

    /// An engine with `default_config()`.
    pub fn new() -> (r: TradingBot)
        ensures
            r.wf(),
            r.config == default_engine_config(),
            r.bars_seen == 0,
            r.can_trade,
    {
        match TradingBot::with_config(default_config()) {
            Ok(b) => b,
            Err(_) => vstd::pervasive::unreached(),
        }
    }

    /// Feeds one completed bar: updates the indicators with its close (and
    /// the ATR with its high and low), counts it toward the warm-up, and
    /// records the MACD signal in the confirmation window.
    pub fn one_minute_update(&mut self, candle: &Candlestick)
        requires
            old(self).wf(),
            candle.wf(),
            is_level(candle.close as int),
        ensures
            final(self).wf(),
            final(self).config == old(self).config,
            final(self).can_trade == old(self).can_trade,
            final(self).bars_seen == if old(self).bars_seen < old(self).config.warmup {
                old(self).bars_seen + 1
            } else {
                old(self).bars_seen as int
            },
            final(self).long_trading.macd.prices@ == old(self).long_trading.macd.prices@.push(
                candle.close as int,
            ),
            final(self).atr.period == old(self).atr.period,
            final(self).atr.bars@ == old(self).atr.bars@.push(
                (candle.high as int, candle.low as int, candle.close as int),
            ),
            final(self).primaries@ == old(self).primaries@.push(
                final(self).long_trading.macd_signal_spec(),
            ),
            final(self).lastest_macd_signals@ == last_n(
                old(self).lastest_macd_signals@.push(final(self).long_trading.macd_signal_spec()),
                old(self).config.confirm_window as int,
            ),
    {
        self.long_trading.update(candle.close);
        self.atr.update(candle.high, candle.low, candle.close);
        if self.bars_seen < self.config.warmup {
            self.bars_seen = self.bars_seen + 1;
        }
        let sig = self.long_trading.get_macd_signal();
        let ghost old_window = self.lastest_macd_signals@;
        let ghost old_prim = self.primaries@;
        let ghost n = self.config.confirm_window as int;
        self.lastest_macd_signals.push(sig);
        if self.lastest_macd_signals.len() > self.config.confirm_window {
            self.lastest_macd_signals.remove(0);
        }
        self.primaries = Ghost(old_prim.push(sig));
        proof {
            let w = old_window.push(sig);
            let p = old_prim.push(sig);
            if p.len() <= n {
                assert(old_prim.len() <= n);
                assert(w =~= p);
            } else if old_prim.len() <= n {
                assert(w =~= p);
                assert(self.lastest_macd_signals@ =~= p.subrange(p.len() - n, p.len() as int));
            } else {
                assert(w =~= old_prim.subrange(old_prim.len() - n, old_prim.len() as int).push(
                    sig,
                ));
                assert(self.lastest_macd_signals@ =~= p.subrange(p.len() - n, p.len() as int));
            }
            assert(self.lastest_macd_signals@ =~= last_n(w, n));
        }
    }

    /// The effective MACD bias: Buy if any recent MACD signal was Buy,
    /// else the most recent one.
    fn check_macd_signal(&self) -> (r: TradeSignal)
        ensures
            r == bias_of(self.lastest_macd_signals@),
    {
        let n = self.lastest_macd_signals.len();
        if n == 0 {
            return TradeSignal::Hold;
        }
        let mut i: usize = 0;
        while i < n
            invariant
                n == self.lastest_macd_signals@.len(),
                0 <= i <= n,
                forall|j: int| 0 <= j < i ==> self.lastest_macd_signals@[j] != TradeSignal::Buy,
            decreases n - i,
        {
            if self.lastest_macd_signals[i] == TradeSignal::Buy {
                assert(self.lastest_macd_signals@.contains(TradeSignal::Buy));
                return TradeSignal::Buy;
            }
            i = i + 1;
        }
        assert(!self.lastest_macd_signals@.contains(TradeSignal::Buy));
        self.lastest_macd_signals[n - 1]
    }

    /// The signal at `price`: Hold during warm-up; afterwards Buy when the
    /// MACD bias and the EMA both say Buy, Sell when both say Sell, Hold
    /// otherwise. A Sell allows trading again.
    pub fn get_signal(&mut self, price: i64) -> (r: TradeSignal)
        requires
            old(self).wf(),
        ensures
            final(self).wf(),
            r == old(self).signal_spec(price),
            old(self).bars_seen < old(self).config.warmup ==> r == TradeSignal::Hold,
            final(self).can_trade == (old(self).can_trade || r == TradeSignal::Sell),
            final(self).bars_seen == old(self).bars_seen,
            final(self).config == old(self).config,
            final(self).long_trading == old(self).long_trading,
            final(self).atr == old(self).atr,
            final(self).lastest_macd_signals@ == old(self).lastest_macd_signals@,
            final(self).primaries@ == old(self).primaries@,
    {
        if self.bars_seen < self.config.warmup {
            return TradeSignal::Hold;
        }
        let ema_signal = self.long_trading.get_ema_signal(price);
        let macd_signal = self.check_macd_signal();
        if ema_signal == TradeSignal::Buy && macd_signal == TradeSignal::Buy {
            TradeSignal::Buy
        } else if ema_signal == TradeSignal::Sell && macd_signal == TradeSignal::Sell {
            self.can_trade = true;
            TradeSignal::Sell
        } else {
            TradeSignal::Hold
        }
    }

    /// The stop distance: the ATR times the configured multiplier, once the
    /// ATR exists.
    pub fn get_atr_value(&self) -> (r: Option<i64>)
        requires
            self.wf(),
        ensures
            match (r, self.atr.value_spec()) {
                (Some(d), Some(a)) => d as int == a * self.config.stop_num
                    / self.config.stop_den as int && crate::position::valid_distance(d as int),
                (None, None) => true,
                _ => false,
            },
    {
        match self.atr.get_atr() {
            Some(a) => {
                let num = self.config.stop_num as i128;
                let den = self.config.stop_den as i128;
                proof {
                    let m = MAX_STOP_MULTIPLE as int;
                    let b = crate::num::MAX_PRICE as int;
                    assert(0 <= a * num <= b * (den * m)) by (nonlinear_arith)
                        requires
                            0 <= a <= b,
                            0 <= num <= m * den,
                            den > 0,
                    ;
                    assert(den * 0 <= a * num);
                    assert(b * (den * m) == den * (m * b)) by (nonlinear_arith);
                    crate::num::lemma_div_within(a * num, den as int, 0, m * b);
                }
                Some(((a as i128 * num) / den) as i64)
            },
            None => None,
        }
    }

    /// Whether the engine allows a new buy.
    pub fn get_can_trade(&self) -> (r: bool)
        ensures
            r == self.can_trade,
    {
        self.can_trade
    }

    /// Allows or forbids new buys.
    pub fn set_can_trade(&mut self, can_trade: bool)
        requires
            old(self).wf(),
        ensures
            final(self).wf(),
            final(self).can_trade == can_trade,
            final(self).config == old(self).config,
            final(self).bars_seen == old(self).bars_seen,
            final(self).lastest_macd_signals@ == old(self).lastest_macd_signals@,
            final(self).primaries@ == old(self).primaries@,
            final(self).long_trading == old(self).long_trading,
            final(self).atr == old(self).atr,
    {
        self.can_trade = can_trade;
    }
}

/// During warm-up the engine says Hold whatever the price: an engine fed
/// fewer bars than its warm-up length has counted each of them, so every
/// signal it gives is Hold.
pub proof fn lemma_warmup_holds(bot: TradingBot, price: i64)
    requires
        bot.wf(),
        bot.bars_seen < bot.config.warmup,
    ensures
        bot.signal_spec(price) == TradeSignal::Hold,
{
}

/// The outcome of a bar together with the values the order side needs.
#[derive(Debug, Clone, Copy, PartialEq, Eq, Structural)]
pub struct IndicatorResult {
    pub signal: TradeSignal,
    /// Stop distance, once the ATR exists.
    pub atr: Option<i64>,
    /// High of the bar the signal was computed on.
    pub high: i64,
}

} // verus!

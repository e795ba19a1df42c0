//! The decisions the pipeline takes between its outside calls: what to do
//! with a bar's signal, and how long to wait before reconnecting.

use vstd::prelude::*;
use crate::position::{valid_distance, PositionTracker};
use crate::signal::{IndicatorResult, TradeSignal, TradingBot};
use crate::smooth::is_level;

verus! {

/// What the order side should do after a bar.
#[derive(Debug, Clone, Copy, PartialEq, Eq, Structural)]
pub enum OrderAction {
    /// Place nothing.
    Nothing,
    /// Open a position.
    Buy,
    /// Close the open position: its stop was reached.
    Sell,
}

/// The action for a bar's result: an open position observes the bar's high
/// (when the stop distance is known) and is closed at its stop; with no
/// position open, a Buy signal opens one if the engine allows trading and
/// the stop distance is known, since no stop can be set without it.
pub open spec fn action_for(pos: PositionTracker, can_trade: bool, res: IndicatorResult) -> (
    PositionTracker,
    bool,
    OrderAction,
) {
    if pos.active {
        match res.atr {
            Some(d) => if valid_distance(d as int) && is_level(res.high as int) {
                let next = pos.observed(res.high, d);
                if res.high <= next.stop_loss {
                    (next, can_trade, OrderAction::Sell)
                } else {
                    (next, can_trade, OrderAction::Nothing)
                }
            } else {
                (pos, can_trade, OrderAction::Nothing)
            },
            None => (pos, can_trade, OrderAction::Nothing),
        }
    } else if res.signal == TradeSignal::Buy && can_trade && (res.atr matches Some(d)
        && valid_distance(d as int)) {
        (pos, false, OrderAction::Buy)
    } else {
        (pos, can_trade, OrderAction::Nothing)
    }
}

/// Decides the order action for a bar's result, updating the trailing stop
/// and, on a Buy, forbidding further buys until a Sell signal.
pub fn handle_signal(
    position: &mut PositionTracker,
    bot: &mut TradingBot,
    result: IndicatorResult,
) -> (r: OrderAction)
    requires
        old(position).wf(),
        old(bot).wf(),
    ensures
        final(position).wf(),
        final(bot).wf(),
        (*final(position), final(bot).can_trade, r) == action_for(
            *old(position),
            old(bot).can_trade,
            result,
        ),
        final(bot).config == old(bot).config,
        final(bot).bars_seen == old(bot).bars_seen,
        final(bot).long_trading == old(bot).long_trading,
        final(bot).atr == old(bot).atr,
        final(bot).lastest_macd_signals@ == old(bot).lastest_macd_signals@,
        final(bot).primaries@ == old(bot).primaries@,
{
    if position.active {
        match result.atr {
            Some(d) => {
                if d >= 0 && d <= crate::num::MAX_STOP_MULTIPLE * crate::num::MAX_PRICE
                    && result.high >= 0 && result.high <= crate::num::MAX_PRICE {
                    if position.update_coin_position(result.high, d) {
                        OrderAction::Sell
                    } else {
                        OrderAction::Nothing
                    }
                } else {
                    OrderAction::Nothing
                }
            },
            None => OrderAction::Nothing,
        }
    } else if result.signal == TradeSignal::Buy && bot.get_can_trade() {
        match result.atr {
            Some(d) => {
                if d >= 0 && d <= crate::num::MAX_STOP_MULTIPLE * crate::num::MAX_PRICE {
                    bot.set_can_trade(false);
                    OrderAction::Buy
                } else {
                    OrderAction::Nothing
                }
            },
            None => OrderAction::Nothing,
        }
    } else {
        OrderAction::Nothing
    }
}

/// The position and trading permission after the order side reports on an
/// action: a filled buy opens the position at the fill price with the stop
/// the bar's ATR gives; a buy that did not fill (or filled at a price that
/// is not a level) allows buying again; a filled sell closes the position;
/// anything else changes nothing.
pub open spec fn after_fill(
    pos: PositionTracker,
    can_trade: bool,
    action: OrderAction,
    res: IndicatorResult,
    fill: Option<i64>,
) -> (PositionTracker, bool) {
    match action {
        OrderAction::Buy => match (fill, res.atr) {
            (Some(price), Some(d)) => if is_level(price as int) && valid_distance(d as int) {
                (
                    PositionTracker {
                        active: true,
                        entry_price: price,
                        highest_price: price,
                        stop_loss: (price - d) as i64,
                    },
                    can_trade,
                )
            } else {
                (pos, true)
            },
            _ => (pos, true),
        },
        OrderAction::Sell => match fill {
            Some(_) => (PositionTracker::new_spec(), can_trade),
            None => (pos, can_trade),
        },
        OrderAction::Nothing => (pos, can_trade),
    }
}

/// Applies the order side's report on `action`, where `fill` is the fill
/// price when the order filled.
pub fn apply_fill(
    position: &mut PositionTracker,
    bot: &mut TradingBot,
    action: OrderAction,
    result: IndicatorResult,
    fill: Option<i64>,
)
    requires
        old(position).wf(),
        old(bot).wf(),
    ensures
        final(position).wf(),
        final(bot).wf(),
        (*final(position), final(bot).can_trade) == after_fill(
            *old(position),
            old(bot).can_trade,
            action,
            result,
            fill,
        ),
        final(bot).config == old(bot).config,
        final(bot).bars_seen == old(bot).bars_seen,
        final(bot).long_trading == old(bot).long_trading,
        final(bot).atr == old(bot).atr,
        final(bot).lastest_macd_signals@ == old(bot).lastest_macd_signals@,
        final(bot).primaries@ == old(bot).primaries@,
{
    match action {
        OrderAction::Buy => {
            let mut opened = false;
            if let Some(price) = fill {
                if let Some(d) = result.atr {
                    if price >= 0 && price <= crate::num::MAX_PRICE && d >= 0 && d
                        <= crate::num::MAX_STOP_MULTIPLE * crate::num::MAX_PRICE {
                        position.on_buy_fill(price, d);
                        opened = true;
                    }
                }
            }
            if !opened {
                bot.set_can_trade(true);
            }
        },
        OrderAction::Sell => {
            if fill.is_some() {
                position.on_sell_fill();
            }
        },
        OrderAction::Nothing => {},
    }
}

/// Longest wait between reconnection attempts, in seconds.
pub const MAX_BACKOFF_SECS: u64 = 60;

/// Reconnection delay of one ingestion stage: one second after a good
/// message, doubling after each failure up to `MAX_BACKOFF_SECS`.
#[derive(Debug, Clone, Copy, PartialEq, Eq, Structural)]
pub struct Backoff {
    /// Seconds to wait after the next failure.
    pub delay: u64,
}

impl Backoff {
    /// The delay is between one second and the cap.
    pub open spec fn wf(&self) -> bool {
        1 <= self.delay <= MAX_BACKOFF_SECS
    }

    /// A fresh stage waits one second after its first failure.
    pub fn new() -> (r: Backoff)
        ensures
            r.wf(),
            r.delay == 1,
    {
        Backoff { delay: 1 }
    }

    /// A message arrived: the next failure waits one second again.
    pub fn on_message(&mut self)
        ensures
            final(self).wf(),
            final(self).delay == 1,
    {
        self.delay = 1;
    }

    /// The connection failed: returns how long to wait before reconnecting,
    /// and doubles the next wait, up to the cap.
    pub fn on_failure(&mut self) -> (r: u64)
        requires
            old(self).wf(),
        ensures
            final(self).wf(),
            r == old(self).delay,
            final(self).delay == if 2 * old(self).delay < MAX_BACKOFF_SECS {
                2 * old(self).delay
            } else {
                MAX_BACKOFF_SECS as int
            },
    {
        let wait = self.delay;
        self.delay = if 2 * self.delay < MAX_BACKOFF_SECS {
            2 * self.delay
        } else {
            MAX_BACKOFF_SECS
        };
        wait
    }
}

} // verus!

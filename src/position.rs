//! Per-symbol position state with a trailing stop.

use vstd::prelude::*;
use crate::smooth::is_level;

verus! {

/// Largest stop distance accepted.
pub open spec fn max_distance() -> int {
    crate::num::MAX_STOP_MULTIPLE as int * crate::num::MAX_PRICE as int
}

/// A stop may sit at most `max_distance()` below the price it trails.
pub open spec fn valid_distance(d: int) -> bool {
    0 <= d <= max_distance()
}

/// Whether a position is open, where it was entered, the highest price
/// seen since, and the stop below that high.
#[derive(Debug, Clone, Copy, PartialEq, Eq, Structural)]
pub struct PositionTracker {
    pub active: bool,
    pub entry_price: i64,
    pub highest_price: i64,
    pub stop_loss: i64,
}

impl PositionTracker {
    /// An open position has levels for prices and its stop at or below its
    /// high; a closed one is all zero.
    pub open spec fn wf(&self) -> bool {
        if self.active {
            &&& is_level(self.entry_price as int)
            &&& is_level(self.highest_price as int)
            &&& self.entry_price <= self.highest_price
            &&& self.highest_price - max_distance() <= self.stop_loss <= self.highest_price
        } else {
            self.entry_price == 0 && self.highest_price == 0 && self.stop_loss == 0
        }
    }

    /// A closed position.
    pub fn new() -> (r: PositionTracker)
        ensures
            r.wf(),
            !r.active,
    {
        PositionTracker { active: false, entry_price: 0, highest_price: 0, stop_loss: 0 }
    }

    /// A buy filled at `price`: the position opens, its high is the entry
    /// price and its stop sits `distance` below it.
    pub fn on_buy_fill(&mut self, price: i64, distance: i64)
        requires
            is_level(price as int),
            valid_distance(distance as int),
        ensures
            final(self).wf(),
            *final(self) == (PositionTracker {
                active: true,
                entry_price: price,
                highest_price: price,
                stop_loss: (price - distance) as i64,
            }),
    {
        self.active = true;
        self.entry_price = price;
        self.highest_price = price;
        self.stop_loss = price - distance;
    }

    /// A sell filled: the position closes and every field returns to zero.
    pub fn on_sell_fill(&mut self)
        ensures
            final(self).wf(),
            *final(self) == PositionTracker::new_spec(),
    {
        self.active = false;
        self.entry_price = 0;
        self.highest_price = 0;
        self.stop_loss = 0;
    }

    /// The closed position.
    pub open spec fn new_spec() -> PositionTracker {
        PositionTracker { active: false, entry_price: 0, highest_price: 0, stop_loss: 0 }
    }

    /// The state after observing `high` with the stop `distance` below it.
    pub open spec fn observed(self, high: i64, distance: i64) -> PositionTracker {
        if self.active && high > self.highest_price {
            let raised = high - distance;
            PositionTracker {
                highest_price: high,
                stop_loss: if raised > self.stop_loss {
                    raised as i64
                } else {
                    self.stop_loss
                },
                ..self
            }
        } else {
            self
        }
    }

    /// Observes a price high while the position is open. A new high lifts
    /// the stop to `distance` below it, never lowering it; the result says
    /// whether the price is at or below the stop, so that the position
    /// should be closed. A closed position ignores the observation.
    pub fn update_coin_position(&mut self, high: i64, distance: i64) -> (r: bool)
        requires
            old(self).wf(),
            is_level(high as int),
            valid_distance(distance as int),
        ensures
            final(self).wf(),
            *final(self) == old(self).observed(high, distance),
            final(self).stop_loss >= old(self).stop_loss || !old(self).active,
            r == (old(self).active && high <= final(self).stop_loss),
    {
        if !self.active {
            return false;
        }
        if high > self.highest_price {
            self.highest_price = high;
            let raised = high - distance;
            if raised > self.stop_loss {
                self.stop_loss = raised;
            }
        }
        high <= self.stop_loss
    }

    /// Whether no position is open, so that a buy may be placed.
    pub fn can_trade(&self) -> (r: bool)
        ensures
            r == !self.active,
    {
        !self.active
    }
}

/// The stops a position passes through while observing `highs` in order.
pub open spec fn stops_along(p: PositionTracker, highs: Seq<i64>, distance: i64) -> Seq<i64>
    decreases highs.len(),
{
    if highs.len() == 0 {
        seq![p.stop_loss]
    } else {
        let before = trail(p, highs.drop_last(), distance);
        stops_along(p, highs.drop_last(), distance).push(
            before.observed(highs.last(), distance).stop_loss,
        )
    }
}

/// The position after observing `highs` in order.
pub open spec fn trail(p: PositionTracker, highs: Seq<i64>, distance: i64) -> PositionTracker
    decreases highs.len(),
{
    if highs.len() == 0 {
        p
    } else {
        trail(p, highs.drop_last(), distance).observed(highs.last(), distance)
    }
}

/// While a position is open, a trailing stop never relaxes: for any
/// sequence of observed highs (in particular a strictly increasing one),
/// each stop is at least the one before it, and the position stays open.
pub proof fn lemma_trailing_stop_monotone(p: PositionTracker, highs: Seq<i64>, distance: i64)
    requires
        p.wf(),
        p.active,
        valid_distance(distance as int),
    ensures
        trail(p, highs, distance).active,
        stops_along(p, highs, distance).len() == highs.len() + 1,
        forall|i: int|
            0 < i < stops_along(p, highs, distance).len() ==> stops_along(p, highs, distance)[i
                - 1] <= #[trigger] stops_along(p, highs, distance)[i],
        stops_along(p, highs, distance).last() == trail(p, highs, distance).stop_loss,
    decreases highs.len(),
{
    if highs.len() > 0 {
        lemma_trailing_stop_monotone(p, highs.drop_last(), distance);
        let s0 = stops_along(p, highs.drop_last(), distance);
        let s = stops_along(p, highs, distance);
        let before = trail(p, highs.drop_last(), distance);
        assert(s == s0.push(before.observed(highs.last(), distance).stop_loss));
        assert forall|i: int| 0 < i < s.len() implies s[i - 1] <= #[trigger] s[i] by {
            if i < s0.len() {
                assert(s[i] == s0[i] && s[i - 1] == s0[i - 1]);
            } else {
                assert(s[i - 1] == before.stop_loss);
                assert(before.active);
            }
        }
    }
}

} // verus!

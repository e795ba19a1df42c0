//! OHLCV bars and the tick-to-bar aggregator.

use vstd::prelude::*;
use crate::smooth::is_level;

verus! {

/// Bar width, in seconds, of one-minute bars.
pub const CANDLESTICK_ONE_MIN_TIMEFRAME: i64 = 60;

/// Bar width, in seconds, of five-minute bars.
pub const CANDLESTICK_FIVE_MIN_TIMEFRAME: i64 = 300;

/// One trade: when (seconds since the epoch), at what price, and how much.
#[derive(Debug, Clone, Copy, PartialEq, Eq, Structural)]
pub struct Tick {
    pub time: i64,
    pub price: i64,
    pub size: u64,
}

/// An OHLCV bar covering `[start, end)`.
#[derive(Debug, Clone, Copy, PartialEq, Eq, Structural)]
pub struct Candlestick {
    pub start: i64,
    pub end: i64,
    pub open: i64,
    pub high: i64,
    pub low: i64,
    pub close: i64,
    pub volume: u64,
}

/// Why a tick was skipped.
#[derive(Debug, Clone, Copy, PartialEq, Eq, Structural)]
pub enum TickError {
    /// The price is negative or above `MAX_PRICE`.
    BadPrice,
    /// The time is negative, or its bar would end past the largest time.
    BadTime,
    /// The time falls before the bar being built.
    OutOfOrder,
    /// The bar's volume would overflow.
    VolumeOverflow,
}

/// The start of the window of width `d` that holds `t`.
pub open spec fn window_start(t: int, d: int) -> int {
    t - t % d
}

/// A non-negative time lies in the window that starts at or before it,
/// which starts at or after zero.
pub proof fn lemma_window_start(t: int, d: int)
    requires
        t >= 0,
        d > 0,
    ensures
        0 <= window_start(t, d) <= t < window_start(t, d) + d,
{
    vstd::arithmetic::div_mod::lemma_fundamental_div_mod(t, d);
    vstd::arithmetic::div_mod::lemma_mod_bound(t, d);
    let q = t / d;
    let r = t % d;
    assert(d * q >= 0) by (nonlinear_arith)
        requires
            t == d * q + r,
            0 <= r < d,
            t >= 0,
    ;
}

/// A tick whose fields the aggregator accepts when it opens a bar.
pub open spec fn tick_ok(t: Tick, d: int) -> bool {
    is_level(t.price as int) && 0 <= t.time && window_start(t.time as int, d) + d <= i64::MAX
}

/// The verdict on a tick's own fields.
pub open spec fn tick_check(t: Tick, d: int) -> Result<(), TickError> {
    if !is_level(t.price as int) {
        Err(TickError::BadPrice)
    } else if t.time < 0 || window_start(t.time as int, d) + d > i64::MAX {
        Err(TickError::BadTime)
    } else {
        Ok(())
    }
}

impl Candlestick {
    /// Low is at most open and close; high is at least both; prices are levels.
    pub open spec fn wf(&self) -> bool {
        &&& self.low <= self.open && self.low <= self.close
        &&& self.high >= self.open && self.high >= self.close
        &&& is_level(self.low as int) && is_level(self.high as int)
        &&& self.start < self.end
    }

    /// Whether the bar is well formed, as one built by the aggregator is.
    pub fn is_valid(&self) -> (r: bool)
        ensures
            r == self.wf(),
    {
        self.low <= self.open && self.low <= self.close && self.high >= self.open && self.high
            >= self.close && self.low >= 0 && self.low <= crate::num::MAX_PRICE && self.high >= 0
            && self.high <= crate::num::MAX_PRICE && self.start < self.end
    }

    /// The bar that a first tick opens.
    pub open spec fn opened(t: Tick, d: int) -> Candlestick {
        let s = window_start(t.time as int, d);
        Candlestick {
            start: s as i64,
            end: (s + d) as i64,
            open: t.price,
            high: t.price,
            low: t.price,
            close: t.price,
            volume: t.size,
        }
    }

    /// The bar after one more tick inside its window.
    pub open spec fn updated(self, price: i64, size: u64) -> Candlestick {
        Candlestick {
            high: if price > self.high { price } else { self.high },
            low: if price < self.low { price } else { self.low },
            close: price,
            volume: (self.volume + size) as u64,
            ..self
        }
    }

    /// Opens a bar of width `duration` seconds on a first tick: the bar
    /// starts at the window boundary at or before `time`.
    pub fn new(time: i64, price: i64, size: u64, duration: i64) -> (r: Candlestick)
        requires
            duration > 0,
            tick_ok(Tick { time, price, size }, duration as int),
        ensures
            r == Candlestick::opened(Tick { time, price, size }, duration as int),
            r.wf(),
    {
        let start = get_start_time(time, duration);
        Candlestick {
            start,
            end: start + duration,
            open: price,
            high: price,
            low: price,
            close: price,
            volume: size,
        }
    }

    /// Takes one more tick into the bar.
    pub fn update(&mut self, price: i64, size: u64)
        requires
            old(self).wf(),
            is_level(price as int),
            old(self).volume + size <= u64::MAX,
        ensures
            *final(self) == old(self).updated(price, size),
            final(self).wf(),
    {
        if price > self.high {
            self.high = price;
        }
        if price < self.low {
            self.low = price;
        }
        self.close = price;
        self.volume = self.volume + size;
    }
}

/// The start of the window of width `duration` that holds `time`.
pub fn get_start_time(time: i64, duration: i64) -> (r: i64)
    requires
        time >= 0,
        duration > 0,
    ensures
        r as int == window_start(time as int, duration as int),
        0 <= r <= time,
        r <= time < r + duration,
{
    proof {
        lemma_window_start(time as int, duration as int);
    }
    time - time % duration
}

/// What one tick does to the bar under construction: the bar afterwards,
/// and the completed bar it emits, or why it was skipped.
pub open spec fn tick_step(d: int, cur: Option<Candlestick>, t: Tick) -> (
    Option<Candlestick>,
    Result<Option<Candlestick>, TickError>,
) {
    match tick_check(t, d) {
        Err(e) => (cur, Err(e)),
        Ok(()) => match cur {
            None => (Some(Candlestick::opened(t, d)), Ok(None)),
            Some(c) => if t.time < c.start {
                (cur, Err(TickError::OutOfOrder))
            } else if t.time < c.end {
                if c.volume + t.size > u64::MAX {
                    (cur, Err(TickError::VolumeOverflow))
                } else {
                    (Some(c.updated(t.price, t.size)), Ok(None))
                }
            } else {
                (Some(Candlestick::opened(t, d)), Ok(Some(c)))
            },
        },
    }
}

/// The bars emitted, and the bar under construction, after feeding `ticks`
/// in order; skipped ticks emit nothing and change nothing.
pub open spec fn run_ticks(d: int, cur: Option<Candlestick>, ticks: Seq<Tick>) -> (
    Option<Candlestick>,
    Seq<Candlestick>,
)
    decreases ticks.len(),
{
    if ticks.len() == 0 {
        (cur, Seq::empty())
    } else {
        let (c1, out1) = run_ticks(d, cur, ticks.drop_last());
        let (c2, r) = tick_step(d, c1, ticks.last());
        match r {
            Ok(Some(done)) => (c2, out1.push(done)),
            _ => (c2, out1),
        }
    }
}

/// A bar under construction, if any, is well formed.
pub open spec fn current_ok(cur: Option<Candlestick>) -> bool {
    cur matches Some(c) ==> c.wf()
}

/// Every bar the aggregator emits, from any well-formed state and for any
/// ticks, has its low at most its open and close, its high at least both,
/// and a non-negative volume; and the bar under construction stays so.
pub proof fn lemma_emitted_bars_well_formed(d: int, cur: Option<Candlestick>, ticks: Seq<Tick>)
    requires
        d > 0,
        current_ok(cur),
    ensures
        current_ok(run_ticks(d, cur, ticks).0),
        forall|i: int|
            0 <= i < run_ticks(d, cur, ticks).1.len() ==> {
                let c = #[trigger] run_ticks(d, cur, ticks).1[i];
                &&& c.wf()
                &&& c.low <= c.open && c.low <= c.close
                &&& c.high >= c.open && c.high >= c.close
                &&& c.volume >= 0
            },
    decreases ticks.len(),
{
    if ticks.len() > 0 {
        lemma_emitted_bars_well_formed(d, cur, ticks.drop_last());
        let (c1, out1) = run_ticks(d, cur, ticks.drop_last());
        lemma_step_well_formed(d, c1, ticks.last());
        let out = run_ticks(d, cur, ticks).1;
        assert forall|i: int| 0 <= i < out.len() implies (#[trigger] out[i]).wf() by {
            if i < out1.len() {
                assert(out[i] == out1[i]);
            }
        }
    }
}

/// One step keeps the bar under construction well formed, and emits only
/// well-formed bars.
pub proof fn lemma_step_well_formed(d: int, cur: Option<Candlestick>, t: Tick)
    requires
        d > 0,
        current_ok(cur),
    ensures
        current_ok(tick_step(d, cur, t).0),
        tick_step(d, cur, t).1 matches Ok(Some(c)) ==> c.wf(),
{
    if tick_check(t, d) is Ok {
        let s = window_start(t.time as int, d);
        lemma_window_start(t.time as int, d);
        assert(Candlestick::opened(t, d).wf());
        if let Some(c) = cur {
            assert(c.wf());
            assert(c.updated(t.price, t.size).wf());
        }
    }
}

/// Bins ticks into bars of a fixed width.
pub struct CandleAggregator {
    /// Bar width in seconds.
    pub duration: i64,
    /// The bar under construction, if a tick has arrived since the start.
    pub current: Option<Candlestick>,
}

impl CandleAggregator {
    /// The width is positive and the bar under construction well formed.
    pub open spec fn wf(&self) -> bool {
        self.duration > 0 && current_ok(self.current)
    }

    /// An empty aggregator of bars `duration` seconds wide; `None` if the
    /// width is not positive.
    pub fn new(duration: i64) -> (r: Option<CandleAggregator>)
        ensures
            duration > 0 <==> r is Some,
            r matches Some(a) ==> a.wf() && a.duration == duration && a.current is None,
    {
        if duration > 0 {
            Some(CandleAggregator { duration, current: None })
        } else {
            None
        }
    }

    /// Drops the bar under construction, as after a reconnect: the next tick
    /// opens a fresh bar.
    pub fn reset(&mut self)
        requires
            old(self).wf(),
        ensures
            final(self).wf(),
            final(self).duration == old(self).duration,
            final(self).current is None,
    {
        self.current = None;
    }

    /// Emits the bar under construction, if any, as at the end of a stream
    /// or on shutdown, and leaves the aggregator empty.
    pub fn flush(&mut self) -> (r: Option<Candlestick>)
        requires
            old(self).wf(),
        ensures
            final(self).wf(),
            final(self).duration == old(self).duration,
            final(self).current is None,
            r == old(self).current,
            r matches Some(c) ==> c.wf(),
    {
        let r = self.current;
        self.current = None;
        r
    }

    /// Takes one tick. A tick inside the current window updates the bar; a
    /// tick at or past its end emits the bar and opens the next one at the
    /// boundary holding the tick. Malformed ticks are refused and change
    /// nothing.
    pub fn push_tick(&mut self, tick: Tick) -> (r: Result<Option<Candlestick>, TickError>)
        requires
            old(self).wf(),
        ensures
            final(self).wf(),
            final(self).duration == old(self).duration,
            (final(self).current, r) == tick_step(
                old(self).duration as int,
                old(self).current,
                tick,
            ),
            r matches Ok(Some(c)) ==> c.wf(),
    {
        proof {
            lemma_step_well_formed(self.duration as int, self.current, tick);
        }
        if tick.price < 0 || tick.price > crate::num::MAX_PRICE {
            return Err(TickError::BadPrice);
        }
        if tick.time < 0 {
            return Err(TickError::BadTime);
        }
        let start = get_start_time(tick.time, self.duration);
        if start > i64::MAX - self.duration {
            return Err(TickError::BadTime);
        }
        match self.current {
            None => {
                self.current = Some(Candlestick::new(tick.time, tick.price, tick.size, self.duration));
                Ok(None)
            },
            Some(c) => {
                if tick.time < c.start {
                    Err(TickError::OutOfOrder)
                } else if tick.time < c.end {
                    if c.volume > u64::MAX - tick.size {
                        Err(TickError::VolumeOverflow)
                    } else {
                        let mut next = c;
                        next.update(tick.price, tick.size);
                        self.current = Some(next);
                        Ok(None)
                    }
                } else {
                    self.current = Some(
                        Candlestick::new(tick.time, tick.price, tick.size, self.duration),
                    );
                    Ok(Some(c))
                }
            },
        }
    }

    /// Feeds a batch of ticks in order, live or replayed from history alike,
    /// and returns the bars they complete; refused ticks are skipped.
    pub fn push_batch(&mut self, ticks: &Vec<Tick>) -> (r: Vec<Candlestick>)
        requires
            old(self).wf(),
        ensures
            final(self).wf(),
            final(self).duration == old(self).duration,
            (final(self).current, r@) == run_ticks(
                old(self).duration as int,
                old(self).current,
                ticks@,
            ),
    {
        let ghost d = self.duration as int;
        let ghost cur0 = self.current;
        let mut out: Vec<Candlestick> = Vec::new();
        let mut i: usize = 0;
        while i < ticks.len()
            invariant
                self.wf(),
                self.duration as int == d,
                0 <= i <= ticks.len(),
                (self.current, out@) == run_ticks(d, cur0, ticks@.subrange(0, i as int)),
            decreases ticks.len() - i,
        {
            let ghost before = ticks@.subrange(0, i as int);
            let ghost after = ticks@.subrange(0, i as int + 1);
            assert(after.drop_last() =~= before);
            assert(after.last() == ticks@[i as int]);
            match self.push_tick(ticks[i]) {
                Ok(Some(c)) => out.push(c),
                _ => {},
            }
            i = i + 1;
        }
        assert(ticks@.subrange(0, ticks@.len() as int) =~= ticks@);
        out
    }
}

} // verus!

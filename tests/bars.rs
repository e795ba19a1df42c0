use tradecore::candle::{get_start_time, Candlestick, CandleAggregator, Tick, TickError};

fn tick(time: i64, price: i64, size: u64) -> Tick {
    Tick { time, price, size }
}

#[test]
fn one_window_of_ticks_makes_one_candle() {
    let mut agg = CandleAggregator::new(60).unwrap();
    for (i, p) in [100, 101, 102, 101, 100].into_iter().enumerate() {
        assert_eq!(agg.push_tick(tick(120 + i as i64 * 10, p, 1)), Ok(None));
    }
    let c = agg.flush().unwrap();
    assert_eq!((c.open, c.high, c.low, c.close, c.volume), (100, 102, 100, 100, 5));
    assert_eq!((c.start, c.end), (120, 180));
    assert_eq!(agg.flush(), None);
}

#[test]
fn two_windows_make_two_candles() {
    let mut agg = CandleAggregator::new(60).unwrap();
    let ticks = vec![
        tick(10, 100, 1),
        tick(20, 105, 2),
        tick(59, 99, 3),
        tick(65, 101, 4),
        tick(80, 103, 5),
    ];
    let mut out = agg.push_batch(&ticks);
    assert_eq!(out.len(), 1);
    out.extend(agg.flush());
    assert_eq!(out.len(), 2);
    assert_eq!(out[0], Candlestick { start: 0, end: 60, open: 100, high: 105, low: 99, close: 99, volume: 6 });
    assert_eq!(out[1].start, get_start_time(65, 60));
    assert_eq!(out[1].start, 60);
    assert_eq!((out[1].open, out[1].close, out[1].volume), (101, 103, 9));
}

#[test]
fn tick_on_boundary_starts_next_candle() {
    let mut agg = CandleAggregator::new(60).unwrap();
    agg.push_tick(tick(0, 10, 1)).unwrap();
    let done = agg.push_tick(tick(60, 11, 1)).unwrap().unwrap();
    assert_eq!((done.start, done.end, done.close), (0, 60, 10));
    assert_eq!(agg.current.unwrap().start, 60);
}

#[test]
fn gap_aligns_to_window_of_new_tick() {
    let mut agg = CandleAggregator::new(300).unwrap();
    agg.push_tick(tick(100, 10, 1)).unwrap();
    let done = agg.push_tick(tick(1000, 12, 1)).unwrap().unwrap();
    assert_eq!(done.start, 0);
    assert_eq!(agg.current.unwrap().start, 900);
    assert_eq!(agg.current.unwrap().end, 1200);
}

#[test]
fn emitted_candles_keep_ohlc_order() {
    let mut agg = CandleAggregator::new(5).unwrap();
    let prices = [7, 3, 9, 1, 4, 8, 2, 6, 5, 10, 0, 7];
    let ticks: Vec<Tick> = prices.iter().enumerate().map(|(i, p)| tick(i as i64 * 2, *p, 1)).collect();
    let mut out = agg.push_batch(&ticks);
    out.extend(agg.flush());
    assert!(out.len() >= 4);
    for c in out {
        assert!(c.low <= c.open.min(c.close));
        assert!(c.high >= c.open.max(c.close));
    }
}

#[test]
fn malformed_ticks_are_refused() {
    let mut agg = CandleAggregator::new(60).unwrap();
    assert_eq!(agg.push_tick(tick(0, -1, 1)), Err(TickError::BadPrice));
    assert_eq!(agg.push_tick(tick(-5, 1, 1)), Err(TickError::BadTime));
    assert_eq!(agg.push_tick(tick(i64::MAX, 1, 1)), Err(TickError::BadTime));
    assert_eq!(agg.current, None);
    agg.push_tick(tick(100, 5, u64::MAX)).unwrap();
    assert_eq!(agg.push_tick(tick(50, 5, 1)), Err(TickError::OutOfOrder));
    assert_eq!(agg.push_tick(tick(110, 5, 1)), Err(TickError::VolumeOverflow));
    assert_eq!(agg.current.unwrap().volume, u64::MAX);
}

#[test]
fn batch_skips_refused_ticks() {
    let mut agg = CandleAggregator::new(60).unwrap();
    let ticks = vec![tick(0, 5, 1), tick(1, -3, 1), tick(2, 6, 1)];
    assert!(agg.push_batch(&ticks).is_empty());
    let c = agg.flush().unwrap();
    assert_eq!((c.high, c.low, c.volume), (6, 5, 2));
}

#[test]
fn reset_starts_fresh_after_reconnect() {
    let mut agg = CandleAggregator::new(60).unwrap();
    agg.push_tick(tick(500, 5, 1)).unwrap();
    agg.reset();
    assert_eq!(agg.push_tick(tick(100, 7, 2)), Ok(None));
    assert_eq!(agg.current.unwrap().start, 60);
}

#[test]
fn aggregator_needs_positive_width() {
    assert!(CandleAggregator::new(0).is_none());
    assert!(CandleAggregator::new(-60).is_none());
}

#[test]
fn candle_new_and_update() {
    let mut c = Candlestick::new(125, 50, 2, 60);
    assert_eq!(c, Candlestick { start: 120, end: 180, open: 50, high: 50, low: 50, close: 50, volume: 2 });
    c.update(55, 1);
    c.update(45, 1);
    assert_eq!((c.open, c.high, c.low, c.close, c.volume), (50, 55, 45, 45, 4));
}

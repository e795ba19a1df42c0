use tradecore::candle::Candlestick;
use tradecore::coin::{get_coin_places, is_valid_coin, Coin, CoinSymbol};
use tradecore::model::TradeSide;
use tradecore::num::ConfigError;
use tradecore::pipeline::{apply_fill, handle_signal, Backoff, OrderAction};
use tradecore::position::PositionTracker;
use tradecore::signal::{default_config, IndicatorResult, TradeSignal, TradingBot, TradingIndicator};

fn bar(close: i64) -> Candlestick {
    Candlestick { start: 0, end: 60, open: close, high: close + 2, low: close - 2, close, volume: 1 }
}

#[test]
fn engine_holds_through_warmup() {
    let mut bot = TradingBot::new();
    let warmup = default_config().warmup;
    for i in 0..warmup - 1 {
        let c = bar(1000 + 10 * i as i64);
        bot.one_minute_update(&c);
        assert_eq!(bot.get_signal(c.close + 1000), TradeSignal::Hold);
        assert_eq!(bot.get_signal(0), TradeSignal::Hold);
    }
    assert_eq!(bot.bars_seen, warmup - 1);
}

#[test]
fn engine_confirms_buy_after_warmup() {
    let mut cfg = default_config();
    cfg.macd_fast = 2;
    cfg.macd_slow = 3;
    cfg.macd_signal = 2;
    cfg.trend_period = 2;
    cfg.atr_period = 2;
    cfg.confirm_window = 3;
    cfg.warmup = 4;
    let mut bot = TradingBot::with_config(cfg).unwrap();
    for c in [100, 100, 100, 100, 130] {
        bot.one_minute_update(&bar(c));
    }
    assert_eq!(bot.lastest_macd_signals.last(), Some(&TradeSignal::Buy));
    assert_eq!(bot.get_signal(200), TradeSignal::Buy);
    assert_eq!(bot.get_signal(1), TradeSignal::Hold);
    assert_eq!(bot.get_atr_value(), Some(bot.atr.get_atr().unwrap() * 5 / 4));
}

#[test]
fn engine_sell_reenables_trading() {
    let mut cfg = default_config();
    cfg.macd_fast = 2;
    cfg.macd_slow = 3;
    cfg.macd_signal = 2;
    cfg.trend_period = 2;
    cfg.confirm_window = 1;
    cfg.warmup = 1;
    let mut bot = TradingBot::with_config(cfg).unwrap();
    for c in [300, 300, 300, 300, 200] {
        bot.one_minute_update(&bar(c));
    }
    bot.set_can_trade(false);
    assert_eq!(bot.get_signal(100), TradeSignal::Sell);
    assert!(bot.get_can_trade());
}

#[test]
fn engine_config_is_checked() {
    let mut cfg = default_config();
    cfg.macd_slow = 0;
    assert_eq!(TradingBot::with_config(cfg).err(), Some(ConfigError::ZeroPeriod));
    let mut cfg = default_config();
    cfg.stop_den = 0;
    assert_eq!(TradingBot::with_config(cfg).err(), Some(ConfigError::BadMultiplier));
    let mut cfg = default_config();
    cfg.stop_num = 4 * 16_384 + 1;
    assert_eq!(TradingBot::with_config(cfg).err(), Some(ConfigError::BadMultiplier));
}

#[test]
fn indicator_signals_compare_lines() {
    let mut t = TradingIndicator::new();
    assert_eq!(t.get_macd_signal(), TradeSignal::Hold);
    assert_eq!(t.get_ema_signal(5), TradeSignal::Hold);
    for i in 0..20 {
        t.update(100 + i);
    }
    assert_eq!(t.get_ema_signal(1000), TradeSignal::Buy);
    assert_eq!(t.get_ema_signal(1), TradeSignal::Sell);
}

#[test]
fn trailing_stop_ratchets_up_and_triggers() {
    let mut p = PositionTracker::new();
    assert!(p.can_trade());
    p.on_buy_fill(100, 10);
    assert_eq!((p.entry_price, p.highest_price, p.stop_loss), (100, 100, 90));
    let mut last = p.stop_loss;
    for h in [105, 110, 120] {
        assert!(!p.update_coin_position(h, 10));
        assert!(p.stop_loss >= last);
        last = p.stop_loss;
    }
    assert_eq!((p.highest_price, p.stop_loss), (120, 110));
    assert!(!p.update_coin_position(125, 30));
    assert_eq!(p.stop_loss, 110);
    assert!(p.update_coin_position(109, 10));
    p.on_sell_fill();
    assert_eq!(p, PositionTracker::new());
    assert!(!p.update_coin_position(1, 0));
}

#[test]
fn handle_signal_buys_then_trails() {
    let mut pos = PositionTracker::new();
    let mut bot = TradingBot::new();
    let buy = IndicatorResult { signal: TradeSignal::Buy, atr: Some(5), high: 100 };
    assert_eq!(handle_signal(&mut pos, &mut bot, buy), OrderAction::Buy);
    assert!(!bot.get_can_trade());
    assert_eq!(handle_signal(&mut pos, &mut bot, buy), OrderAction::Nothing);
    pos.on_buy_fill(100, 5);
    let up = IndicatorResult { signal: TradeSignal::Hold, atr: Some(5), high: 120 };
    assert_eq!(handle_signal(&mut pos, &mut bot, up), OrderAction::Nothing);
    assert_eq!(pos.stop_loss, 115);
    let down = IndicatorResult { signal: TradeSignal::Hold, atr: Some(5), high: 114 };
    assert_eq!(handle_signal(&mut pos, &mut bot, down), OrderAction::Sell);
    let no_atr = IndicatorResult { signal: TradeSignal::Hold, atr: None, high: 1 };
    assert_eq!(handle_signal(&mut pos, &mut bot, no_atr), OrderAction::Nothing);
}

#[test]
fn backoff_doubles_to_cap_and_resets() {
    let mut b = Backoff::new();
    let waits: Vec<u64> = (0..8).map(|_| b.on_failure()).collect();
    assert_eq!(waits, vec![1, 2, 4, 8, 16, 32, 60, 60]);
    b.on_message();
    assert_eq!(b.on_failure(), 1);
}

#[test]
fn coin_records() {
    let mut c = Coin::new(5, false, 0, 0);
    c.update_coin(true, 90, 100);
    assert_eq!(c, Coin { balance: 5, active_trade: true, stop_loss: 90, last_high: 100 });
    assert_eq!(CoinSymbol::Usdc.name(), "USDC");
    assert_eq!(CoinSymbol::Unknown.name(), "NA");
    assert_eq!(TradeSignal::Sell.as_str(), "Sell");
}

#[test]
fn coin_places_and_tracked_coins() {
    assert_eq!(get_coin_places(CoinSymbol::Btc, TradeSide::Sell), 8);
    assert_eq!(get_coin_places(CoinSymbol::Usdc, TradeSide::Buy), 2);
    assert_eq!(get_coin_places(CoinSymbol::Eth, TradeSide::Buy), 0);
    assert!(is_valid_coin(CoinSymbol::Xrp));
    assert!(!is_valid_coin(CoinSymbol::Eth));
}

#[test]
fn symbols_by_ticker() {
    assert_eq!(CoinSymbol::from_name("BTC"), Some(CoinSymbol::Btc));
    assert_eq!(CoinSymbol::from_name("LINK"), Some(CoinSymbol::Link));
    assert_eq!(CoinSymbol::from_name("NA"), None);
    assert_eq!(CoinSymbol::from_name("btc"), None);
    assert_eq!(CoinSymbol::map_currency_to_symbol("USDC"), CoinSymbol::Usdc);
    assert_eq!(CoinSymbol::map_currency_to_symbol("DOGE"), CoinSymbol::Unknown);
}

#[test]
fn no_buy_without_stop_distance() {
    let mut pos = PositionTracker::new();
    let mut bot = TradingBot::new();
    let buy = IndicatorResult { signal: TradeSignal::Buy, atr: None, high: 100 };
    assert_eq!(handle_signal(&mut pos, &mut bot, buy), OrderAction::Nothing);
    assert!(bot.get_can_trade());
    let too_wide = IndicatorResult { signal: TradeSignal::Buy, atr: Some(-1), high: 100 };
    assert_eq!(handle_signal(&mut pos, &mut bot, too_wide), OrderAction::Nothing);
    assert!(bot.get_can_trade());
}

#[test]
fn fills_open_and_close_the_position() {
    let mut pos = PositionTracker::new();
    let mut bot = TradingBot::new();
    let buy = IndicatorResult { signal: TradeSignal::Buy, atr: Some(7), high: 100 };
    assert_eq!(handle_signal(&mut pos, &mut bot, buy), OrderAction::Buy);
    apply_fill(&mut pos, &mut bot, OrderAction::Buy, buy, None);
    assert!(bot.get_can_trade());
    assert!(!pos.active);
    assert_eq!(handle_signal(&mut pos, &mut bot, buy), OrderAction::Buy);
    apply_fill(&mut pos, &mut bot, OrderAction::Buy, buy, Some(102));
    assert!(!bot.get_can_trade());
    assert_eq!((pos.active, pos.entry_price, pos.highest_price, pos.stop_loss), (true, 102, 102, 95));
    apply_fill(&mut pos, &mut bot, OrderAction::Sell, buy, None);
    assert!(pos.active);
    apply_fill(&mut pos, &mut bot, OrderAction::Sell, buy, Some(90));
    assert_eq!(pos, PositionTracker::new());
}

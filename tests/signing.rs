use tradecore::coin::CoinSymbol;
use tradecore::model::{market_order, TradeSide};
use tradecore::util::{get_api_string, get_history_candles, http_sign, market_subcribe_string, to_hex};

#[test]
fn product_id_joins_with_dash() {
    assert_eq!(market_subcribe_string("XRP", "USDC"), "XRP-USDC");
}

#[test]
fn api_path_for_pair() {
    assert_eq!(
        get_api_string(CoinSymbol::Btc, CoinSymbol::Usdc, "/api/v3/brokerage/products"),
        "/api/v3/brokerage/products/BTC-USDC"
    );
}

#[test]
fn hex_encoding() {
    assert_eq!(to_hex(&vec![0x00, 0xab, 0x0f, 0xff]), "00ab0fff");
    assert_eq!(to_hex(&vec![]), "");
}

#[test]
fn request_signature_is_hmac_sha256_hex() {
    let sig = http_sign(b"Jefe", "what do ya ", "want ", "for nothing", "?");
    assert_eq!(sig, "5bdcc146bf60754e6a042426089575c75a003f089d2739839dec58b964ec3843");
}

#[test]
fn history_window_before_recent_bar() {
    let w = get_history_candles(1_000_000).unwrap();
    assert_eq!((w.start, w.end), (1_000_000 - 300 - 30_000, 1_000_000 - 300));
    assert!(get_history_candles(i64::MIN + 10).is_none());
}

#[test]
fn market_order_sizes_by_side() {
    let buy = market_order(TradeSide::Buy, "10.5".to_string());
    let ioc = buy.market_market_ioc.unwrap();
    assert_eq!(ioc.quote_size.as_deref(), Some("10.5"));
    assert!(ioc.base_size.is_none());
    let sell = market_order(TradeSide::Sell, "3".to_string());
    assert_eq!(sell.market_market_ioc.unwrap().base_size.as_deref(), Some("3"));
    assert_eq!(TradeSide::Buy.as_str(), "BUY");
}

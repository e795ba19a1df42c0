use tradecore::model::Side;
use tradecore::order_book::{get_strong_level, L2Data, OrderBook};

fn level(side: Side, price_level: i64, new_quantity: u64) -> L2Data {
    L2Data { side, price_level, new_quantity }
}

#[test]
fn updates_keep_levels_sorted_and_replace_prices() {
    let mut book = OrderBook::new();
    for (p, q) in [(105, 3), (101, 2), (110, 1), (101, 7)] {
        book.process_side_update(level(Side::Bid, p, q));
    }
    let prices: Vec<(i64, u64)> = book.bids.iter().map(|l| (l.price_level, l.new_quantity)).collect();
    assert_eq!(prices, vec![(101, 7), (105, 3), (110, 1)]);
    assert!(book.asks.is_empty());
    book.process_side_update(level(Side::Bid, 105, 0));
    let prices: Vec<i64> = book.bids.iter().map(|l| l.price_level).collect();
    assert_eq!(prices, vec![101, 110]);
    book.process_side_update(level(Side::Offer, 120, 0));
    assert!(book.asks.is_empty());
}

#[test]
fn support_and_resistance_by_cumulative_quantity() {
    let mut book = OrderBook::new();
    for (p, q) in [(90, 2), (95, 3), (99, 10)] {
        book.process_side_update(level(Side::Bid, p, q));
    }
    for (p, q) in [(101, 1), (103, 1), (108, 9)] {
        book.process_side_update(level(Side::Offer, p, q));
    }
    assert_eq!(book.identify_support_and_resistance(5), (95, 108));
    assert_eq!(book.identify_support_and_resistance(100), (0, 0));
    assert_eq!(get_strong_level(&book.bids, 0), 90);
    assert_eq!(get_strong_level(&Vec::new(), 0), 0);
}

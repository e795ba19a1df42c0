//! Plain values exchanged with the exchange: sides, statuses, order
//! configurations and replies, heartbeats and subscriptions.

use vstd::prelude::*;

verus! {

/// Side of an order.
#[derive(Debug, Clone, Copy, PartialEq, Eq, Structural)]
pub enum TradeSide {
    Buy,
    Sell,
}

impl TradeSide {
    /// The exchange's name for the side.
    pub fn as_str(&self) -> (r: &'static str)
        ensures
            r@ == match *self {
                TradeSide::Buy => seq!['B', 'U', 'Y'],
                TradeSide::Sell => seq!['S', 'E', 'L', 'L'],
            },
    {
        match self {
            TradeSide::Buy => {
                proof { reveal_strlit("BUY"); }
                "BUY"
            },
            TradeSide::Sell => {
                proof { reveal_strlit("SELL"); }
                "SELL"
            },
        }
    }
}

/// Side of an order-book level.
#[derive(Debug, Clone, Copy, PartialEq, Eq, Structural)]
pub enum Side {
    Bid,
    Offer,
}

/// Lifecycle state of an order.
#[derive(Debug, Clone, Copy, PartialEq, Eq, Structural)]
pub enum OrderStatus {
    Pending,
    Open,
    Filled,
    Cancelled,
    Expired,
    Failed,
}

/// Whether a market-data event is an initial snapshot or a later update.
#[derive(Debug, Clone, Copy, PartialEq, Eq, Structural)]
pub enum EventType {
    Snapshot,
    Update,
}

/// Kind of a wallet account.
#[derive(Debug, Clone, Copy, PartialEq, Eq, Structural)]
pub enum AccountType {
    Unspecified,
    Crypto,
    Fiat,
    Vault,
}

/// Whether tax is included in a fee.
#[derive(Debug, Clone, Copy, PartialEq, Eq, Structural)]
pub enum TaxType {
    Inclusive,
    Exclusive,
}

/// A heartbeat message.
#[derive(Debug)]
pub struct HeartbeatMessage {
    pub channel: String,
    pub client_id: String,
    pub timestamp: String,
    pub sequence_num: u64,
    pub events: Vec<HeartbeatEvent>,
}

/// One heartbeat.
#[derive(Debug)]
pub struct HeartbeatEvent {
    pub current_time: String,
    pub heartbeat_counter: u64,
}

/// The channels a subscription covers.
#[derive(Debug)]
pub struct SubscriptionDetail {
    pub heartbeats: Option<Vec<String>>,
    pub market_trades: Option<Vec<String>>,
}

/// A subscription acknowledgement.
#[derive(Debug)]
pub struct SubscriptionEvent {
    pub subscriptions: SubscriptionDetail,
}

/// Sizes of an immediate-or-cancel market order: in quote currency for a
/// buy, in base currency for a sell.
#[derive(Debug)]
pub struct MarketMarketIoc {
    pub quote_size: Option<String>,
    pub base_size: Option<String>,
}

/// A good-till-date limit order.
#[derive(Debug)]
pub struct LimitLimitGtd {
    pub base_size: Option<String>,
    pub limit_price: Option<String>,
    pub end_time: Option<String>,
    pub post_only: Option<bool>,
}

/// The kind of an order and its parameters.
#[derive(Debug)]
pub struct OrderConfiguration {
    pub market_market_ioc: Option<MarketMarketIoc>,
    pub limit_limit_gtd: Option<LimitLimitGtd>,
}

/// The exchange's reply to an order.
#[derive(Debug)]
pub struct OrderResponse {
    pub success: bool,
    pub failure_reason: String,
    pub order_id: String,
    pub success_response: Option<SuccessResponse>,
    pub error_response: Option<ErrorResponse>,
    pub order_configuration: OrderConfiguration,
}

/// Details of an accepted order.
#[derive(Debug)]
pub struct SuccessResponse {
    pub order_id: String,
    pub product_id: String,
    pub side: String,
    pub client_order_id: String,
}

/// Details of a refused order.
#[derive(Debug)]
pub struct ErrorResponse {
    pub error: String,
    pub message: String,
    pub error_details: String,
    pub preview_failure_reason: String,
    pub new_order_failure_reason: Option<String>,
}

/// The order configuration of a market order of the given side and size:
/// a buy is sized in quote currency, a sell in base currency.
pub fn market_order(side: TradeSide, amount: String) -> (r: OrderConfiguration)
    ensures
        r.limit_limit_gtd is None,
        r.market_market_ioc matches Some(m) && match side {
            TradeSide::Buy => m.quote_size == Some(amount) && m.base_size is None,
            TradeSide::Sell => m.base_size == Some(amount) && m.quote_size is None,
        },
{
    let ioc = match side {
        TradeSide::Buy => MarketMarketIoc { quote_size: Some(amount), base_size: None },
        TradeSide::Sell => MarketMarketIoc { quote_size: None, base_size: Some(amount) },
    };
    OrderConfiguration { market_market_ioc: Some(ioc), limit_limit_gtd: None }
}

} // verus!

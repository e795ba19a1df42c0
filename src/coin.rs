//! Traded symbols and per-coin holdings.

use vstd::prelude::*;
use crate::model::TradeSide;

verus! {

/// A currency the agent knows by name.
#[derive(Debug, Clone, Copy, PartialEq, Eq, Hash, Structural)]
pub enum CoinSymbol {
    Usd,
    Usdc,
    Xrp,
    Ada,
    Link,
    Btc,
    Eth,
    Unknown,
}

/// The exchange's ticker for a symbol; `NA` for an unknown one.
pub open spec fn symbol_name(s: CoinSymbol) -> Seq<char> {
    match s {
        CoinSymbol::Usd => seq!['U', 'S', 'D'],
        CoinSymbol::Usdc => seq!['U', 'S', 'D', 'C'],
        CoinSymbol::Xrp => seq!['X', 'R', 'P'],
        CoinSymbol::Ada => seq!['A', 'D', 'A'],
        CoinSymbol::Link => seq!['L', 'I', 'N', 'K'],
        CoinSymbol::Btc => seq!['B', 'T', 'C'],
        CoinSymbol::Eth => seq!['E', 'T', 'H'],
        CoinSymbol::Unknown => seq!['N', 'A'],
    }
}

/// Whether two strings hold the same characters.
fn same_text(a: &str, b: &str) -> (r: bool)
    ensures
        r == (a@ == b@),
{
    let n = a.unicode_len();
    if n != b.unicode_len() {
        return false;
    }
    let mut i: usize = 0;
    while i < n
        invariant
            n == a@.len(),
            n == b@.len(),
            0 <= i <= n,
            forall|j: int| 0 <= j < i ==> a@[j] == b@[j],
        decreases n - i,
    {
        if a.get_char(i) != b.get_char(i) {
            return false;
        }
        i = i + 1;
    }
    assert(a@ =~= b@);
    true
}

/// The symbols the agent knows by ticker.
pub open spec fn named_symbols() -> Seq<CoinSymbol> {
    seq![
        CoinSymbol::Usd,
        CoinSymbol::Usdc,
        CoinSymbol::Xrp,
        CoinSymbol::Ada,
        CoinSymbol::Link,
        CoinSymbol::Btc,
        CoinSymbol::Eth,
    ]
}

impl CoinSymbol {
    /// The symbol whose ticker is `s`, if any; `NA` names no symbol.
    pub fn from_name(s: &str) -> (r: Option<CoinSymbol>)
        ensures
            r matches Some(c) ==> named_symbols().contains(c) && symbol_name(c) == s@,
            r is None ==> forall|i: int| 0 <= i < named_symbols().len() ==> symbol_name(
                #[trigger] named_symbols()[i],
            ) != s@,
    {
        let all = [
            CoinSymbol::Usd,
            CoinSymbol::Usdc,
            CoinSymbol::Xrp,
            CoinSymbol::Ada,
            CoinSymbol::Link,
            CoinSymbol::Btc,
            CoinSymbol::Eth,
        ];
        assert(all@ =~= named_symbols());
        let mut i: usize = 0;
        while i < 7
            invariant
                all@ == named_symbols(),
                0 <= i <= 7,
                forall|j: int| 0 <= j < i ==> symbol_name(#[trigger] named_symbols()[j]) != s@,
            decreases 7 - i,
        {
            let c = all[i];
            if same_text(c.name(), s) {
                assert(named_symbols()[i as int] == c);
                return Some(c);
            }
            i = i + 1;
        }
        None
    }

    /// The symbol whose ticker is `s`, or `Unknown`.
    pub fn map_currency_to_symbol(s: &str) -> (r: CoinSymbol)
        ensures
            r != CoinSymbol::Unknown ==> symbol_name(r) == s@,
            r == CoinSymbol::Unknown ==> forall|i: int| 0 <= i < named_symbols().len()
                ==> symbol_name(#[trigger] named_symbols()[i]) != s@,
    {
        match CoinSymbol::from_name(s) {
            Some(c) => {
                assert(c != CoinSymbol::Unknown);
                c
            },
            None => CoinSymbol::Unknown,
        }
    }

    /// The exchange's ticker for this symbol.
    pub fn name(&self) -> (r: &'static str)
        ensures
            r@ == symbol_name(*self),
    {
        match self {
            CoinSymbol::Usd => {
                proof { reveal_strlit("USD"); }
                "USD"
            },
            CoinSymbol::Usdc => {
                proof { reveal_strlit("USDC"); }
                "USDC"
            },
            CoinSymbol::Xrp => {
                proof { reveal_strlit("XRP"); }
                "XRP"
            },
            CoinSymbol::Ada => {
                proof { reveal_strlit("ADA"); }
                "ADA"
            },
            CoinSymbol::Link => {
                proof { reveal_strlit("LINK"); }
                "LINK"
            },
            CoinSymbol::Btc => {
                proof { reveal_strlit("BTC"); }
                "BTC"
            },
            CoinSymbol::Eth => {
                proof { reveal_strlit("ETH"); }
                "ETH"
            },
            CoinSymbol::Unknown => {
                proof { reveal_strlit("NA"); }
                "NA"
            },
        }
    }
}

/// Decimal places an order amount of `symbol` is truncated to on the given
/// side; zero for a symbol the agent does not trade.
pub open spec fn places_for(symbol: CoinSymbol, side: TradeSide) -> u32 {
    match (side, symbol) {
        (TradeSide::Buy, CoinSymbol::Usdc) => 2,
        (TradeSide::Buy, CoinSymbol::Xrp) => 4,
        (TradeSide::Buy, CoinSymbol::Btc) => 2,
        (TradeSide::Sell, CoinSymbol::Xrp) => 6,
        (TradeSide::Sell, CoinSymbol::Btc) => 8,
        _ => 0,
    }
}

/// Decimal places an order amount is truncated to.
pub fn get_coin_places(symbol: CoinSymbol, side: TradeSide) -> (r: u32)
    ensures
        r == places_for(symbol, side),
{
    match (side, symbol) {
        (TradeSide::Buy, CoinSymbol::Usdc) => 2,
        (TradeSide::Buy, CoinSymbol::Xrp) => 4,
        (TradeSide::Buy, CoinSymbol::Btc) => 2,
        (TradeSide::Sell, CoinSymbol::Xrp) => 6,
        (TradeSide::Sell, CoinSymbol::Btc) => 8,
        _ => 0,
    }
}

/// Whether the agent keeps track of balances in this currency.
pub fn is_valid_coin(symbol: CoinSymbol) -> (r: bool)
    ensures
        r == (symbol == CoinSymbol::Usd || symbol == CoinSymbol::Usdc || symbol == CoinSymbol::Xrp
            || symbol == CoinSymbol::Btc),
{
    match symbol {
        CoinSymbol::Usd | CoinSymbol::Usdc | CoinSymbol::Xrp | CoinSymbol::Btc => true,
        _ => false,
    }
}

/// Holdings and trailing-stop state of one coin.
#[derive(Debug, Clone, Copy, PartialEq, Eq, Structural)]
pub struct Coin {
    pub balance: i64,
    pub active_trade: bool,
    pub stop_loss: i64,
    pub last_high: i64,
}

impl Coin {
    /// A coin record with the given fields.
    pub fn new(balance: i64, active_trade: bool, stop_loss: i64, last_high: i64) -> (r: Coin)
        ensures
            r == (Coin { balance, active_trade, stop_loss, last_high }),
    {
        Coin { balance, active_trade, stop_loss, last_high }
    }

    /// Replaces the trade state, keeping the balance.
    pub fn update_coin(&mut self, active_trade: bool, stop_loss: i64, last_high: i64)
        ensures
            *final(self) == (Coin { balance: old(self).balance, active_trade, stop_loss, last_high }),
    {
        self.active_trade = active_trade;
        self.stop_loss = stop_loss;
        self.last_high = last_high;
    }
}

} // verus!

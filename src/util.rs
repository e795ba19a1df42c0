//! Product identifiers, endpoint paths and request signing.

use vstd::prelude::*;
use crate::coin::{symbol_name, CoinSymbol};

verus! {

/// The HMAC-SHA256 tag of the UTF-8 encoding of `message` under `key`.
pub uninterp spec fn hmac_sha256_of(key: Seq<u8>, message: Seq<char>) -> Seq<u8>;

/// Relies on hmac's `Hmac<Sha256>`: `new_from_slice` accepts a key of any
/// length, and `finalize` yields the 32-byte HMAC-SHA256 tag of the bytes
/// passed to `update`.
#[verifier::external_body]
fn hmac_sha256(key: &[u8], message: &str) -> (r: Vec<u8>)
    ensures
        r@ == hmac_sha256_of(key@, message@),
        r@.len() == 32,
{
    let mut mac = <hmac::Hmac<sha2::Sha256> as hmac::Mac>::new_from_slice(key).expect(
        "any key length",
    );
    hmac::Mac::update(&mut mac, message.as_bytes());
    hmac::Mac::finalize(mac).into_bytes().to_vec()
}

/// Relies on `String::push`: appends one character.
#[verifier::external_body]
fn push_char(s: &mut String, c: char)
    ensures
        final(s)@ == old(s)@.push(c),
{
    s.push(c);
}

/// The lower-case hexadecimal digit of `n < 16`.
pub open spec fn hex_digit(n: int) -> char {
    if n < 10 {
        ((n + 48) as u8) as char
    } else {
        ((n + 87) as u8) as char
    }
}

/// Two lower-case hexadecimal digits per byte, high nibble first.
pub open spec fn hex_of(bytes: Seq<u8>) -> Seq<char>
    decreases bytes.len(),
{
    if bytes.len() == 0 {
        Seq::empty()
    } else {
        hex_of(bytes.drop_last()).push(hex_digit(bytes.last() as int / 16)).push(
            hex_digit(bytes.last() as int % 16),
        )
    }
}

fn hex_digit_exec(n: u8) -> (r: char)
    requires
        n < 16,
    ensures
        r == hex_digit(n as int),
{
    if n < 10 {
        (n + 48) as char
    } else {
        (n + 87) as char
    }
}

/// Lower-case hexadecimal text of `bytes`.
pub fn to_hex(bytes: &Vec<u8>) -> (r: String)
    ensures
        r@ == hex_of(bytes@),
{
    let mut out = String::new();
    let mut i: usize = 0;
    while i < bytes.len()
        invariant
            0 <= i <= bytes.len(),
            out@ == hex_of(bytes@.subrange(0, i as int)),
        decreases bytes.len() - i,
    {
        let b = bytes[i];
        proof {
            let before = bytes@.subrange(0, i as int);
            let after = bytes@.subrange(0, i as int + 1);
            assert(after.drop_last() =~= before);
        }
        push_char(&mut out, hex_digit_exec(b / 16));
        push_char(&mut out, hex_digit_exec(b % 16));
        i = i + 1;
    }
    assert(bytes@.subrange(0, bytes@.len() as int) =~= bytes@);
    out
}

/// The product identifier of a pair, `COIN-CURRENCY`.
pub fn market_subcribe_string(coin_symbol: &str, curreny_sybmol: &str) -> (r: String)
    ensures
        r@ == coin_symbol@ + seq!['-'] + curreny_sybmol@,
{
    let mut s = String::from_str(coin_symbol);
    proof {
        reveal_strlit("-");
    }
    s.append("-");
    s.append(curreny_sybmol);
    s
}

/// The path of a pair under an endpoint, `endpoint/SYMBOL-CURRENCY`.
pub fn get_api_string(symbol: CoinSymbol, currency: CoinSymbol, endpoint: &str) -> (r: String)
    ensures
        r@ == endpoint@ + seq!['/'] + symbol_name(symbol) + seq!['-'] + symbol_name(currency),
{
    let mut s = String::from_str(endpoint);
    proof {
        reveal_strlit("/");
    }
    s.append("/");
    let pair = market_subcribe_string(symbol.name(), currency.name());
    s.append(pair.as_str());
    assert(s@ =~= endpoint@ + seq!['/'] + symbol_name(symbol) + seq!['-'] + symbol_name(
        currency,
    ));
    s
}

/// The signature of a REST request: the hexadecimal HMAC-SHA256, under
/// the secret key, of the timestamp, method, path and body run together.
pub fn http_sign(
    secret_key: &[u8],
    timestamp: &str,
    method: &str,
    request_path: &str,
    body: &str,
) -> (r: String)
    ensures
        r@ == hex_of(
            hmac_sha256_of(secret_key@, timestamp@ + method@ + request_path@ + body@),
        ),
{
    let mut message = String::from_str(timestamp);
    message.append(method);
    message.append(request_path);
    message.append(body);
    let tag = hmac_sha256(secret_key, message.as_str());
    to_hex(&tag)
}

/// Seconds between the start of the most recent bar and the end of the
/// history fetched before it.
pub const HISTORY_GAP: i64 = 300;

/// Seconds of history fetched to seed the indicators.
pub const HISTORY_SPAN: i64 = 30_000;

/// The time range of history to fetch before live bars that start at
/// `recent_start`.
#[derive(Debug, Clone, Copy, PartialEq, Eq, Structural)]
pub struct HistoryWindow {
    pub start: i64,
    pub end: i64,
}

/// The history to fetch before the bar starting at `recent_start`: it ends
/// `HISTORY_GAP` seconds earlier and spans `HISTORY_SPAN` seconds; `None`
/// when that range falls below the smallest time.
pub fn get_history_candles(recent_start: i64) -> (r: Option<HistoryWindow>)
    ensures
        r is Some <==> recent_start - HISTORY_GAP - HISTORY_SPAN >= i64::MIN,
        r matches Some(w) ==> w.end == recent_start - HISTORY_GAP && w.start == w.end
            - HISTORY_SPAN,
{
    if recent_start < i64::MIN + HISTORY_GAP + HISTORY_SPAN {
        None
    } else {
        let end = recent_start - HISTORY_GAP;
        Some(HistoryWindow { start: end - HISTORY_SPAN, end })
    }
}

} // verus!

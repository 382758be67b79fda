//! What every exchange's websocket client offers, and the rule by which a
//! failed request is tried again.

use vstd::prelude::*;

verus! {

/// Subscriptions on a spot market's streams.
pub trait SpotWs {
    fn sub_orderbook(&mut self, symbol: &str);

    fn sub_kline(&mut self, symbol: &str, period: &str);

    fn sub_ticker(&mut self, symbol: &str);

    fn sub_trade(&mut self, symbol: &str);

    fn sub_order_update(&mut self, symbol: &str);
}

/// Subscriptions on a futures market's streams.
pub trait FutureWs {
    fn sub_orderbook(&self, symbol: &str);

    fn sub_kline(&self, symbol: &str, period: &str);

    fn sub_ticker(&self, symbol: &str);

    fn sub_trade(&self, symbol: &str);

    fn sub_order_update(&self, symbol: &str);
}

/// Whether a request is made once more after its attempt number `attempt`,
/// counted from 1, of at most `retry_times`: only a failed attempt is
/// repeated, and the last one never is, so that its error is what the caller
/// gets.
pub fn retry_again(attempt: u8, retry_times: u8, failed: bool) -> (again: bool)
    ensures
        again == (failed && attempt < retry_times),
{
    failed && attempt < retry_times
}

} // verus!

//! Exchange-independent market data, as plain values.

use vstd::prelude::*;

verus! {

/// Number of fixed-point units in one whole: prices and quantities carry
/// eight decimal places.
pub const PRICE_SCALE: u64 = 100_000_000;

/// One level of an order book: the quantity resting at a price.
#[derive(Clone, Copy, Debug, PartialEq, Eq, Structural)]
pub struct PriceLevel {
    pub price: u64,
    pub qty: u64,
}

/// A full order book of one symbol as of `timestamp`, the exchange's update
/// id of the last change it includes.
#[derive(Clone, Debug)]
pub struct Orderbook {
    pub timestamp: u64,
    pub asks: Vec<PriceLevel>,
    pub bids: Vec<PriceLevel>,
}

/// What an [`Orderbook`] holds.
pub struct OrderbookView {
    pub timestamp: u64,
    pub asks: Seq<PriceLevel>,
    pub bids: Seq<PriceLevel>,
}

impl View for Orderbook {
    type V = OrderbookView;

    open spec fn view(&self) -> OrderbookView {
        OrderbookView { timestamp: self.timestamp, asks: self.asks@, bids: self.bids@ }
    }
}

/// One candlestick.
#[derive(Clone, Copy, Debug, PartialEq, Eq, Structural)]
pub struct Kline {
    pub timestamp: u64,
    pub open: u64,
    pub high: u64,
    pub low: u64,
    pub close: u64,
    pub volume: u64,
}

/// The best bid and the best ask of a symbol.
#[derive(Clone, Copy, Debug, PartialEq, Eq, Structural)]
pub struct Ticker {
    pub timestamp: u64,
    pub bid: PriceLevel,
    pub ask: PriceLevel,
}

/// One aggregated trade.
#[derive(Clone, Debug)]
pub struct Trade {
    pub id: u64,
    pub symbol: String,
    pub price: u64,
    pub amount: u64,
    pub timestamp: u64,
    pub buyer_is_maker: bool,
}

} // verus!

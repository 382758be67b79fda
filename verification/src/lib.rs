//! Local order books rebuilt from a stream of depth diffs and checked
//! against full snapshots, with the message classification and the
//! subscription bookkeeping of the exchange's websocket client.
//!
//! Prices and quantities are fixed-point integers, so that a price can key an
//! ordered map and every sum in a price query is exact.

pub mod binance;
pub mod errors;
pub mod models;
pub mod text;
pub mod traits;

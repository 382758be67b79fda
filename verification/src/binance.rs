//! The exchange's spot market: the event types of its streams, the ladder
//! that mirrors one symbol's order book, and the websocket client's state.

pub mod ladder;
pub mod laws;
pub mod registry;
pub mod side;
pub mod spot_ws;
pub mod types;

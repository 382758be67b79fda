//! Why a payload of the stream could not be told apart.

use vstd::prelude::*;
use vstd::string::StringExecFns;

verus! {

/// A payload whose shape names no event that the client handles.
#[derive(Clone, Copy, Debug, PartialEq, Eq, Structural)]
pub enum DecodeError {
    /// The payload has none of the fields and none of the event types by
    /// which events are told apart.
    ChannelNotFound,
    /// The payload is a full order book outside a combined stream, which the
    /// client does not take.
    SingleOrderbookNotSupported,
}

impl DecodeError {
    /// The text of the error.
    pub open spec fn spec_message(self) -> Seq<char> {
        match self {
            DecodeError::ChannelNotFound => "msg channel not found"@,
            DecodeError::SingleOrderbookNotSupported => "Single orderbook not support"@,
        }
    }

    /// The text of the error.
    pub fn message(&self) -> (text: String)
        ensures
            text@ == self.spec_message(),
    {
        match self {
            DecodeError::ChannelNotFound => String::from_str("msg channel not found"),
            DecodeError::SingleOrderbookNotSupported => String::from_str(
                "Single orderbook not support",
            ),
        }
    }
}

} // verus!

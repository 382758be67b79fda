//! Payloads of the exchange's streams.

use vstd::prelude::*;
use crate::models::PriceLevel;

verus! {

/// A batch of level changes covering the update ids `first_update_id` to
/// `final_update_id`. A change with quantity 0 removes its price level.
#[derive(Debug)]
pub struct DepthOrderbookEvent {
    pub first_update_id: u64,
    pub final_update_id: u64,
    pub bids: Vec<PriceLevel>,
    pub asks: Vec<PriceLevel>,
}

/// What a [`DepthOrderbookEvent`] holds.
pub struct DepthDiff {
    pub first_update_id: u64,
    pub final_update_id: u64,
    pub bids: Seq<PriceLevel>,
    pub asks: Seq<PriceLevel>,
}

impl View for DepthOrderbookEvent {
    type V = DepthDiff;

    open spec fn view(&self) -> DepthDiff {
        DepthDiff {
            first_update_id: self.first_update_id,
            final_update_id: self.final_update_id,
            bids: self.bids@,
            asks: self.asks@,
        }
    }
}

/// What a collection of events holds, each under its key.
pub open spec fn diffs_of(events: Map<u64, DepthOrderbookEvent>) -> Map<u64, DepthDiff> {
    events.map_values(|event: DepthOrderbookEvent| event@)
}

impl Clone for DepthOrderbookEvent {
    fn clone(&self) -> (copy: Self)
        ensures
            copy@ == self@,
    {
        DepthOrderbookEvent {
            first_update_id: self.first_update_id,
            final_update_id: self.final_update_id,
            bids: self.bids.clone(),
            asks: self.asks.clone(),
        }
    }
}

} // verus!

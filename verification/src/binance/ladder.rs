//! The model of one symbol's ladder: what it holds, how a depth diff and a
//! snapshot change it, and what a price query answers from it.
//!
//! The contracts of the executable order book are stated over the
//! specification functions of this module.

use vstd::prelude::*;
use crate::binance::types::DepthDiff;
use crate::models::{OrderbookView, PriceLevel};

verus! {

/// A snapshot is asked for each time the number of buffered diffs passes a
/// multiple of this interval, the first multiple excepted.
pub const SNAPSHOT_REQUEST_INTERVAL: usize = 30;

/// The price reported for a buy that the asks cannot fill: 999 999 999 999
/// whole units.
pub const UNFILLABLE_BUY_PRICE: u128 = 99_999_999_999_900_000_000;

/// The price reported for a sell that the bids cannot fill.
pub const UNFILLABLE_SELL_PRICE: u128 = 0;

/// `s` holds exactly the entries of `m`, by strictly ascending key.
pub open spec fn lists_ascending<V>(s: Seq<(u64, V)>, m: Map<u64, V>) -> bool {
    &&& forall|i: int, j: int| 0 <= i < j < s.len() ==> (#[trigger] s[i]).0 < (#[trigger] s[j]).0
    &&& forall|i: int|
        0 <= i < s.len() ==> m.contains_key((#[trigger] s[i]).0) && m[s[i].0] == s[i].1
    &&& forall|k: u64|
        #[trigger] m.contains_key(k) ==> exists|i: int| 0 <= i < s.len() && (#[trigger] s[i]).0 == k
}

/// The entries of `m` by ascending key. It is the one sequence that
/// [`lists_ascending`] accepts for `m` (see [`lemma_listing_unique`]), and
/// every finite map has one (see [`lemma_finite_map_is_listed`]).
pub open spec fn ascending<V>(m: Map<u64, V>) -> Seq<(u64, V)> {
    choose|s: Seq<(u64, V)>| lists_ascending(s, m)
}

/// The levels of one side of a book, lowest price first.
pub open spec fn levels_of(side: Map<u64, u64>) -> Seq<PriceLevel> {
    ascending(side).map_values(|kv: (u64, u64)| PriceLevel { price: kv.0, qty: kv.1 })
}

/// One change of a diff: quantity 0 removes the level, any other quantity
/// sets it.
pub open spec fn apply_change(side: Map<u64, u64>, change: PriceLevel) -> Map<u64, u64> {
    if change.qty == 0 {
        side.remove(change.price)
    } else {
        side.insert(change.price, change.qty)
    }
}

/// The changes of a diff applied to one side in the order they are listed.
pub open spec fn apply_changes(side: Map<u64, u64>, changes: Seq<PriceLevel>) -> Map<u64, u64>
    decreases changes.len(),
{
    if changes.len() == 0 {
        side
    } else {
        apply_change(apply_changes(side, changes.drop_last()), changes.last())
    }
}

/// The levels of a snapshot laid over `side` in the order they are listed,
/// each with the quantity it states.
pub open spec fn load_levels(side: Map<u64, u64>, levels: Seq<PriceLevel>) -> Map<u64, u64>
    decreases levels.len(),
{
    if levels.len() == 0 {
        side
    } else {
        load_levels(side, levels.drop_last()).insert(levels.last().price, levels.last().qty)
    }
}

/// What filling `amount` costs when the levels are consumed in the order
/// given, each in full but the last, of which only the remainder is taken.
/// `None` when the levels do not hold `amount` in all.
pub open spec fn fill_cost(levels: Seq<PriceLevel>, amount: int) -> Option<int>
    decreases levels.len(),
{
    if levels.len() == 0 {
        if amount <= 0 {
            Some(0)
        } else {
            None
        }
    } else if amount <= levels[0].qty {
        Some(amount * levels[0].price)
    } else {
        match fill_cost(levels.drop_first(), amount - levels[0].qty) {
            Some(rest) => Some(levels[0].qty * levels[0].price + rest),
            None => None,
        }
    }
}

/// The quantity-weighted average price of a fill, rounded down. A fill of
/// nothing has the average 0.
pub open spec fn average_price(cost: int, amount: int) -> int {
    if amount == 0 {
        0
    } else {
        cost / amount
    }
}

/// What a price query finds.
#[derive(Clone, Copy, Debug, PartialEq, Eq, Structural)]
pub enum Quote {
    /// The ladder is not ready: it holds no consistent state to answer from.
    NotReady,
    /// The side holds less than the quantity asked for.
    Unfillable,
    /// The quantity can be filled for `cost` in all, at `average` per unit.
    Filled { cost: u128, average: u64 },
}

/// The quote for `amount` against levels in the order of consumption.
pub open spec fn quote_of(ready: bool, levels: Seq<PriceLevel>, amount: u64) -> Quote {
    if !ready {
        Quote::NotReady
    } else {
        match fill_cost(levels, amount as int) {
            Some(cost) => Quote::Filled {
                cost: cost as u128,
                average: average_price(cost, amount as int) as u64,
            },
            None => Quote::Unfillable,
        }
    }
}

/// The state of one symbol's ladder.
#[verifier::ext_equal]
pub struct Ladder {
    pub symbol: Seq<char>,
    /// Asks, quantity by price.
    pub asks: Map<u64, u64>,
    /// Bids, quantity by price.
    pub bids: Map<u64, u64>,
    /// Diffs kept for the next snapshot, by the update id they end with.
    pub buffered: Map<u64, DepthDiff>,
    /// Update id of the snapshot adopted last; 0 when there is none.
    pub snapshot_seq: u64,
    /// Update id that the diff applied last ended with; 0 when there is none.
    pub last_diff_seq: u64,
    pub ready: bool,
}

impl Ladder {
    /// The ladder of a symbol before anything has arrived.
    pub open spec fn empty(symbol: Seq<char>) -> Ladder {
        Ladder {
            symbol,
            asks: Map::empty(),
            bids: Map::empty(),
            buffered: Map::empty(),
            snapshot_seq: 0,
            last_diff_seq: 0,
            ready: false,
        }
    }

    /// A diff that ends at or before the snapshot is already part of it.
    pub open spec fn is_stale(self, final_update_id: u64) -> bool {
        final_update_id <= self.snapshot_seq
    }

    /// A diff that does not start right after the last one applied shows
    /// that diffs were lost.
    pub open spec fn is_gap(self, diff: DepthDiff) -> bool {
        self.last_diff_seq != 0 && diff.first_update_id != self.last_diff_seq + 1
    }

    /// Whether applying the diff succeeds: it is stale, or it follows the
    /// last one.
    pub open spec fn accepts(self, final_update_id: u64, diff: DepthDiff) -> bool {
        self.is_stale(final_update_id) || !self.is_gap(diff)
    }

    /// The ladder after a gap: not ready, without sequence numbers, and with
    /// the diff that showed the gap as the only buffered one.
    pub open spec fn reset_with(self, final_update_id: u64, diff: DepthDiff) -> Ladder {
        Ladder {
            ready: false,
            snapshot_seq: 0,
            last_diff_seq: 0,
            buffered: Map::empty().insert(final_update_id, diff),
            ..self
        }
    }

    /// The ladder with the changes of the diff made.
    pub open spec fn merged(self, final_update_id: u64, diff: DepthDiff) -> Ladder {
        Ladder {
            asks: apply_changes(self.asks, diff.asks),
            bids: apply_changes(self.bids, diff.bids),
            last_diff_seq: final_update_id,
            ..self
        }
    }

    /// The ladder after the diff has been applied: unchanged if the diff is
    /// stale, reset if it shows a gap, merged otherwise.
    pub open spec fn apply_diff(self, final_update_id: u64, diff: DepthDiff) -> Ladder {
        if self.is_stale(final_update_id) {
            self
        } else if self.is_gap(diff) {
            self.reset_with(final_update_id, diff)
        } else {
            self.merged(final_update_id, diff)
        }
    }

    /// The ladder with the diff added to the buffered ones.
    pub open spec fn buffer(self, diff: DepthDiff) -> Ladder {
        Ladder { buffered: self.buffered.insert(diff.final_update_id, diff), ..self }
    }

    /// The ladder after a diff has arrived: buffered while the ladder is not
    /// ready, applied once it is.
    pub open spec fn on_depth_event(self, diff: DepthDiff) -> Ladder {
        if !self.ready {
            self.buffer(diff)
        } else {
            self.apply_diff(diff.final_update_id, diff)
        }
    }

    /// Whether the arrival of the diff asks for a snapshot: while not ready,
    /// when the buffered diffs reach a multiple of the interval beyond the
    /// first; once ready, when the diff shows a gap.
    pub open spec fn asks_for_snapshot(self, diff: DepthDiff) -> bool {
        if !self.ready {
            let count = self.buffer(diff).buffered.len();
            count > SNAPSHOT_REQUEST_INTERVAL && count % (SNAPSHOT_REQUEST_INTERVAL as nat) == 0
        } else {
            !self.accepts(diff.final_update_id, diff)
        }
    }

    /// The ladder after the diffs have been applied in the order given. The
    /// first gap ends the replay and leaves the ladder as the gap resets it;
    /// without a gap the ladder ends ready.
    pub open spec fn replay(self, diffs: Seq<(u64, DepthDiff)>) -> Ladder
        decreases diffs.len(),
    {
        if diffs.len() == 0 {
            Ladder { ready: true, ..self }
        } else if self.accepts(diffs[0].0, diffs[0].1) {
            self.apply_diff(diffs[0].0, diffs[0].1).replay(diffs.drop_first())
        } else {
            self.apply_diff(diffs[0].0, diffs[0].1)
        }
    }

    /// The ladder that starts from the snapshot alone: its levels, its
    /// update id, nothing applied and nothing buffered.
    pub open spec fn rebased(self, snapshot: OrderbookView) -> Ladder {
        Ladder {
            asks: load_levels(Map::empty(), snapshot.asks),
            bids: load_levels(Map::empty(), snapshot.bids),
            snapshot_seq: snapshot.timestamp,
            last_diff_seq: 0,
            buffered: Map::empty(),
            ..self
        }
    }

    /// The ladder after a snapshot has been adopted: the snapshot replaces
    /// the levels, and the buffered diffs are replayed over it by ascending
    /// final update id.
    pub open spec fn adopt(self, snapshot: OrderbookView) -> Ladder {
        self.rebased(snapshot).replay(ascending(self.buffered))
    }

    /// The ladder after a fetched snapshot has been delivered: adopted while
    /// the ladder holds no snapshot, dropped once it holds one, so that a
    /// snapshot that comes late never replaces what a resync has set up.
    pub open spec fn deliver(self, snapshot: OrderbookView) -> Ladder {
        if self.snapshot_seq == 0 {
            self.adopt(snapshot)
        } else {
            self
        }
    }

    /// What holds of a ladder that the stream and the snapshots fetched for it
    /// have brought about: while it is ready nothing is buffered, and while
    /// it is not it has no sequence numbers. The buffered diffs are finitely
    /// many.
    pub open spec fn settled(self) -> bool {
        &&& self.buffered.dom().finite()
        &&& self.ready ==> self.buffered == Map::<u64, DepthDiff>::empty()
        &&& !self.ready ==> self.snapshot_seq == 0 && self.last_diff_seq == 0
    }

    /// The quote for buying `amount`: asks are consumed from the lowest
    /// price up.
    pub open spec fn buy_quote(self, amount: u64) -> Quote {
        quote_of(self.ready, levels_of(self.asks), amount)
    }

    /// The quote for selling `amount`: bids are consumed from the highest
    /// price down.
    pub open spec fn sell_quote(self, amount: u64) -> Quote {
        quote_of(self.ready, levels_of(self.bids).reverse(), amount)
    }
}

impl Quote {
    /// The answer to a buy query: the average price and whether the ladder
    /// was ready. An unfillable buy is answered with
    /// [`UNFILLABLE_BUY_PRICE`].
    pub open spec fn spec_buy_price(self) -> (u128, bool) {
        match self {
            Quote::NotReady => (0u128, false),
            Quote::Unfillable => (UNFILLABLE_BUY_PRICE, true),
            Quote::Filled { cost, average } => (average as u128, true),
        }
    }

    /// The answer to a sell query: the average price and whether the ladder
    /// was ready. An unfillable sell is answered with
    /// [`UNFILLABLE_SELL_PRICE`].
    pub open spec fn spec_sell_price(self) -> (u128, bool) {
        match self {
            Quote::NotReady => (0u128, false),
            Quote::Unfillable => (UNFILLABLE_SELL_PRICE, true),
            Quote::Filled { cost, average } => (average as u128, true),
        }
    }

    /// The answer to a buy query: the average price and whether the ladder
    /// was ready.
    #[verifier::when_used_as_spec(spec_buy_price)]
    pub fn buy_price(self) -> (answer: (u128, bool))
        ensures
            answer == self.spec_buy_price(),
    {
        match self {
            Quote::NotReady => (0u128, false),
            Quote::Unfillable => (UNFILLABLE_BUY_PRICE, true),
            Quote::Filled { cost: _, average } => (average as u128, true),
        }
    }

    /// The answer to a sell query: the average price and whether the ladder
    /// was ready.
    #[verifier::when_used_as_spec(spec_sell_price)]
    pub fn sell_price(self) -> (answer: (u128, bool))
        ensures
            answer == self.spec_sell_price(),
    {
        match self {
            Quote::NotReady => (0u128, false),
            Quote::Unfillable => (UNFILLABLE_SELL_PRICE, true),
            Quote::Filled { cost: _, average } => (average as u128, true),
        }
    }
}

/// A replay leaves a ladder its symbol.
pub proof fn lemma_replay_keeps_symbol(ladder: Ladder, diffs: Seq<(u64, DepthDiff)>)
    ensures
        ladder.replay(diffs).symbol == ladder.symbol,
    decreases diffs.len(),
{
    if diffs.len() > 0 && ladder.accepts(diffs[0].0, diffs[0].1) {
        lemma_replay_keeps_symbol(ladder.apply_diff(diffs[0].0, diffs[0].1), diffs.drop_first());
    }
}

/// The first entry of an ascending listing has the least key of the map, and
/// the rest lists the map without that key.
proof fn lemma_listing_rest<V>(s: Seq<(u64, V)>, m: Map<u64, V>)
    requires
        lists_ascending(s, m),
        s.len() > 0,
    ensures
        m.contains_key(s[0].0),
        m[s[0].0] == s[0].1,
        forall|k: u64| m.contains_key(k) ==> s[0].0 <= k,
        lists_ascending(s.drop_first(), m.remove(s[0].0)),
{
    let rest = s.drop_first();
    let m1 = m.remove(s[0].0);
    assert forall|k: u64| m.contains_key(k) implies s[0].0 <= k by {
        let i = choose|i: int| 0 <= i < s.len() && (#[trigger] s[i]).0 == k;
        if i > 0 {
            assert(s[0].0 < s[i].0);
        }
    }
    assert forall|i: int, j: int| 0 <= i < j < rest.len() implies (#[trigger] rest[i]).0 < (
    #[trigger] rest[j]).0 by {
        assert(rest[i] == s[i + 1]);
        assert(rest[j] == s[j + 1]);
    }
    assert forall|i: int| 0 <= i < rest.len() implies m1.contains_key((#[trigger] rest[i]).0)
        && m1[rest[i].0] == rest[i].1 by {
        assert(rest[i] == s[i + 1]);
        assert(s[0].0 < s[i + 1].0);
    }
    assert forall|k: u64| #[trigger] m1.contains_key(k) implies exists|i: int|
        0 <= i < rest.len() && (#[trigger] rest[i]).0 == k by {
        assert(m.contains_key(k));
        let i = choose|i: int| 0 <= i < s.len() && (#[trigger] s[i]).0 == k;
        assert(i > 0);
        assert(rest[i - 1] == s[i]);
    }
}

/// A map has at most one ascending listing.
pub proof fn lemma_listing_unique<V>(s: Seq<(u64, V)>, t: Seq<(u64, V)>, m: Map<u64, V>)
    requires
        lists_ascending(s, m),
        lists_ascending(t, m),
    ensures
        s == t,
    decreases s.len(),
{
    if s.len() == 0 {
        if t.len() > 0 {
            assert(m.contains_key(t[0].0));
            let i = choose|i: int| 0 <= i < s.len() && (#[trigger] s[i]).0 == t[0].0;
        }
        assert(s =~= t);
    } else if t.len() == 0 {
        assert(m.contains_key(s[0].0));
        let i = choose|i: int| 0 <= i < t.len() && (#[trigger] t[i]).0 == s[0].0;
    } else {
        lemma_listing_rest(s, m);
        lemma_listing_rest(t, m);
        assert(s[0].0 == t[0].0);
        assert(s[0] == t[0]);
        lemma_listing_unique(s.drop_first(), t.drop_first(), m.remove(s[0].0));
        assert(s =~= seq![s[0]] + s.drop_first());
        assert(t =~= seq![t[0]] + t.drop_first());
    }
}

/// A set of keys that holds a key up to `bound` has a least key.
proof fn lemma_least_key(keys: Set<u64>, bound: nat) -> (least: u64)
    requires
        exists|k: u64| keys.contains(k) && k <= bound,
    ensures
        keys.contains(least),
        forall|k: u64| keys.contains(k) ==> least <= k,
    decreases bound,
{
    if exists|k: u64| keys.contains(k) && k < bound {
        lemma_least_key(keys, (bound - 1) as nat)
    } else {
        choose|k: u64| keys.contains(k) && k <= bound
    }
}

/// Every finite map has an ascending listing.
pub proof fn lemma_finite_map_is_listed<V>(m: Map<u64, V>)
    requires
        m.dom().finite(),
    ensures
        lists_ascending(ascending(m), m),
    decreases m.dom().len(),
{
    if m.dom().len() == 0 {
        m.dom().lemma_len0_is_empty();
        assert(lists_ascending(Seq::<(u64, V)>::empty(), m));
    } else {
        let some = m.dom().choose();
        assert(m.dom().contains(some));
        let least = lemma_least_key(m.dom(), some as nat);
        let rest = m.remove(least);
        lemma_finite_map_is_listed(rest);
        let tail = ascending(rest);
        let s = seq![(least, m[least])] + tail;
        assert forall|i: int, j: int| 0 <= i < j < s.len() implies (#[trigger] s[i]).0 < (
        #[trigger] s[j]).0 by {
            assert(s[j] == tail[j - 1]);
            assert(rest.contains_key(tail[j - 1].0));
            if i > 0 {
                assert(s[i] == tail[i - 1]);
            }
        }
        assert forall|i: int| 0 <= i < s.len() implies m.contains_key((#[trigger] s[i]).0)
            && m[s[i].0] == s[i].1 by {
            if i > 0 {
                assert(s[i] == tail[i - 1]);
                assert(rest.contains_key(tail[i - 1].0));
            }
        }
        assert forall|k: u64| #[trigger] m.contains_key(k) implies exists|i: int|
            0 <= i < s.len() && (#[trigger] s[i]).0 == k by {
            if k == least {
                assert(s[0].0 == k);
            } else {
                assert(rest.contains_key(k));
                let i = choose|i: int| 0 <= i < tail.len() && (#[trigger] tail[i]).0 == k;
                assert(s[i + 1] == tail[i]);
            }
        }
        assert(lists_ascending(s, m));
    }
}

/// A sequence that lists a map by ascending key is its ascending listing.
pub proof fn lemma_listing_is_ascending<V>(s: Seq<(u64, V)>, m: Map<u64, V>)
    requires
        lists_ascending(s, m),
    ensures
        ascending(m) == s,
{
    lemma_listing_unique(ascending(m), s, m);
}

} // verus!

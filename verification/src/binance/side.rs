//! One side of a ladder: an ordered map from price to quantity, changed by
//! diffs and snapshots and walked from the best price by price queries.

use std::collections::BTreeMap;
use vstd::prelude::*;
use vstd::std_specs::btree::increasing_seq;
use vstd::std_specs::cmp::OrdSpec;
use vstd::std_specs::iter::IteratorSpec;
use crate::binance::ladder::{
    apply_changes, ascending, fill_cost, lemma_listing_is_ascending, levels_of, lists_ascending,
    load_levels,
};
use crate::binance::types::{diffs_of, DepthDiff, DepthOrderbookEvent};
use crate::models::PriceLevel;

verus! {

broadcast use {vstd::laws_cmp::group_laws_cmp, vstd::std_specs::btree::group_btree_axioms};

/// Makes the changes of a diff on one side, in the order they are listed.
pub fn apply_changes_to(side: &mut BTreeMap<u64, u64>, changes: &Vec<PriceLevel>)
    ensures
        final(side)@ == apply_changes(old(side)@, changes@),
{
    let mut i: usize = 0;
    while i < changes.len()
        invariant
            i <= changes.len(),
            side@ == apply_changes(old(side)@, changes@.take(i as int)),
        decreases changes.len() - i,
    {
        let change = changes[i];
        proof {
            assert(changes@.take(i + 1).drop_last() =~= changes@.take(i as int));
            assert(changes@.take(i + 1).last() == change);
        }
        if change.qty == 0 {
            side.remove(&change.price);
        } else {
            side.insert(change.price, change.qty);
        }
        i += 1;
    }
    proof {
        assert(changes@.take(changes.len() as int) =~= changes@);
    }
}

/// Lays the levels of a snapshot over one side, in the order they are listed.
pub fn load_levels_into(side: &mut BTreeMap<u64, u64>, levels: &Vec<PriceLevel>)
    ensures
        final(side)@ == load_levels(old(side)@, levels@),
{
    let mut i: usize = 0;
    while i < levels.len()
        invariant
            i <= levels.len(),
            side@ == load_levels(old(side)@, levels@.take(i as int)),
        decreases levels.len() - i,
    {
        let level = levels[i];
        proof {
            assert(levels@.take(i + 1).drop_last() =~= levels@.take(i as int));
            assert(levels@.take(i + 1).last() == level);
        }
        side.insert(level.price, level.qty);
        i += 1;
    }
    proof {
        assert(levels@.take(levels.len() as int) =~= levels@);
    }
}

/// What an ordered map hands out when it is walked is its ascending listing.
pub proof fn lemma_walk_lists_ascending<V>(walk: Seq<(&u64, &V)>, m: Map<u64, V>)
    requires
        increasing_seq(walk.map_values(|kv: (&u64, &V)| *kv.0)),
        forall|i: int|
            0 <= i < walk.len() ==> m.contains_key(*(#[trigger] walk[i]).0) && m[*walk[i].0]
                == *walk[i].1,
        forall|k: u64| #[trigger] m.contains_key(k) ==> walk.contains((&k, &m[k])),
    ensures
        lists_ascending(walk.map_values(|kv: (&u64, &V)| (*kv.0, *kv.1)), m),
{
    let keys = walk.map_values(|kv: (&u64, &V)| *kv.0);
    let s = walk.map_values(|kv: (&u64, &V)| (*kv.0, *kv.1));
    vstd::std_specs::btree::axiom_increasing_seq_meaning(keys);
    assert forall|i: int, j: int| 0 <= i < j < s.len() implies (#[trigger] s[i]).0 < (
    #[trigger] s[j]).0 by {
        assert(keys[i] == s[i].0);
        assert(keys[j] == s[j].0);
        assert(keys[i].cmp_spec(&keys[j]) is Less);
    }
    assert forall|i: int| 0 <= i < s.len() implies m.contains_key((#[trigger] s[i]).0) && m[s[i].0]
        == s[i].1 by {
        assert(s[i] == (*walk[i].0, *walk[i].1));
    }
    assert forall|k: u64| #[trigger] m.contains_key(k) implies exists|i: int|
        0 <= i < s.len() && (#[trigger] s[i]).0 == k by {
        assert(walk.contains((&k, &m[k])));
        let i = choose|i: int| 0 <= i < walk.len() && walk[i] == (&k, &m[k]);
        assert(s[i].0 == k);
    }
}

/// The levels of one side, lowest price first.
pub fn levels(side: &BTreeMap<u64, u64>) -> (listed: Vec<PriceLevel>)
    ensures
        listed@ == levels_of(side@),
{
    let mut listed: Vec<PriceLevel> = Vec::new();
    for kv in it: side.iter()
        invariant
            listed@.len() == it.index(),
            forall|i: int|
                0 <= i < listed@.len() ==> (#[trigger] listed@[i]).price == *it.seq()[i].0
                    && listed@[i].qty == *it.seq()[i].1,
    {
        listed.push(PriceLevel { price: *kv.0, qty: *kv.1 });
    }
    proof {
        let walk = side.iter().remaining();
        lemma_walk_lists_ascending(walk, side@);
        let s = walk.map_values(|kv: (&u64, &u64)| (*kv.0, *kv.1));
        lemma_listing_is_ascending(s, side@);
        assert(listed@ =~= levels_of(side@));
    }
    listed
}

/// The buffered diffs, lowest final update id first.
pub fn ordered_events(cache: &BTreeMap<u64, DepthOrderbookEvent>) -> (listed: Vec<
    (u64, &DepthOrderbookEvent),
>)
    ensures
        listed@.map_values(|entry: (u64, &DepthOrderbookEvent)| (entry.0, entry.1@)) == ascending(
            diffs_of(cache@),
        ),
{
    let mut listed: Vec<(u64, &DepthOrderbookEvent)> = Vec::new();
    for kv in it: cache.iter()
        invariant
            listed@.len() == it.index(),
            forall|i: int|
                0 <= i < listed@.len() ==> (#[trigger] listed@[i]).0 == *it.seq()[i].0
                    && listed@[i].1 == it.seq()[i].1,
    {
        listed.push((*kv.0, kv.1));
    }
    proof {
        let walk = cache.iter().remaining();
        lemma_walk_lists_ascending(walk, cache@);
        let s = walk.map_values(|kv: (&u64, &DepthOrderbookEvent)| (*kv.0, *kv.1));
        lemma_listing_of_views(s, cache@);
        let t = s.map_values(|entry: (u64, DepthOrderbookEvent)| (entry.0, entry.1@));
        lemma_listing_is_ascending(t, diffs_of(cache@));
        assert(listed@.map_values(|entry: (u64, &DepthOrderbookEvent)| (entry.0, entry.1@)) =~= t);
    }
    listed
}

/// The views of a map's listing list the map of the views.
proof fn lemma_listing_of_views(
    s: Seq<(u64, DepthOrderbookEvent)>,
    m: Map<u64, DepthOrderbookEvent>,
)
    requires
        lists_ascending(s, m),
    ensures
        lists_ascending(
            s.map_values(|entry: (u64, DepthOrderbookEvent)| (entry.0, entry.1@)),
            diffs_of(m),
        ),
{
    let t = s.map_values(|entry: (u64, DepthOrderbookEvent)| (entry.0, entry.1@));
    let views = diffs_of(m);
    assert forall|i: int, j: int| 0 <= i < j < t.len() implies (#[trigger] t[i]).0 < (
    #[trigger] t[j]).0 by {
        assert(t[i].0 == s[i].0);
        assert(t[j].0 == s[j].0);
    }
    assert forall|i: int| 0 <= i < t.len() implies views.contains_key((#[trigger] t[i]).0)
        && views[t[i].0] == t[i].1 by {
        assert(t[i].0 == s[i].0);
        assert(m.contains_key(s[i].0));
    }
    assert forall|k: u64| #[trigger] views.contains_key(k) implies exists|i: int|
        0 <= i < t.len() && (#[trigger] t[i]).0 == k by {
        assert(m.contains_key(k));
        let i = choose|i: int| 0 <= i < s.len() && (#[trigger] s[i]).0 == k;
        assert(t[i].0 == k);
    }
}

/// The same levels in the opposite order.
pub fn reversed(levels: &Vec<PriceLevel>) -> (turned: Vec<PriceLevel>)
    ensures
        turned@ == levels@.reverse(),
{
    let mut turned: Vec<PriceLevel> = Vec::new();
    let mut i: usize = levels.len();
    while i > 0
        invariant
            i <= levels.len(),
            turned@.len() == levels.len() - i,
            forall|j: int|
                0 <= j < turned@.len() ==> #[trigger] turned@[j] == levels@[levels.len() - 1 - j],
        decreases i,
    {
        i -= 1;
        turned.push(levels[i]);
    }
    proof {
        assert(turned@ =~= levels@.reverse());
    }
    turned
}

/// What filling `amount` costs when the levels are consumed in the order
/// given; `None` when they do not hold that much. The quantity still to fill
/// is counted down, so that the last level gives only what is missing.
pub fn fill(levels: &Vec<PriceLevel>, amount: u64) -> (cost: Option<u128>)
    ensures
        match cost {
            Some(c) => fill_cost(levels@, amount as int) == Some(c as int) && c <= amount
                * u64::MAX,
            None => fill_cost(levels@, amount as int) is None,
        },
{
    let mut remaining: u64 = amount;
    let mut spent: u128 = 0;
    let mut i: usize = 0;
    proof {
        assert(levels@.skip(0) =~= levels@);
    }
    while i < levels.len()
        invariant
            i <= levels.len(),
            remaining <= amount,
            spent <= (amount - remaining) * u64::MAX,
            fill_cost(levels@, amount as int) == match fill_cost(
                levels@.skip(i as int),
                remaining as int,
            ) {
                Some(rest) => Some(spent + rest),
                None => None,
            },
        decreases levels.len() - i,
    {
        let level = levels[i];
        proof {
            assert(levels@.skip(i as int)[0] == level);
            assert(levels@.skip(i as int).drop_first() =~= levels@.skip(i + 1));
        }
        if remaining <= level.qty {
            proof {
                lemma_product_bound(remaining as int, level.price as int);
                assert((amount - remaining) * u64::MAX + remaining * u64::MAX == amount * u64::MAX)
                    by (nonlinear_arith);
                lemma_product_bound(amount as int, u64::MAX as int);
            }
            let last: u128 = (remaining as u128) * (level.price as u128);
            return Some(spent + last);
        }
        proof {
            lemma_product_bound(level.qty as int, level.price as int);
            assert((amount - remaining) * u64::MAX + level.qty * u64::MAX == (amount - (remaining
                - level.qty)) * u64::MAX) by (nonlinear_arith);
            lemma_product_bound(amount as int, u64::MAX as int);
            lemma_product_bound((amount - (remaining - level.qty)) as int, u64::MAX as int);
        }
        spent = spent + (level.qty as u128) * (level.price as u128);
        remaining = remaining - level.qty;
        i += 1;
    }
    proof {
        assert(levels@.skip(levels.len() as int).len() == 0);
    }
    if remaining == 0 {
        Some(spent)
    } else {
        None
    }
}

/// A product of two 64-bit values stays within what one factor allows.
proof fn lemma_product_bound(a: int, b: int)
    requires
        0 <= a <= u64::MAX,
        0 <= b <= u64::MAX,
    ensures
        0 <= a * b <= a * u64::MAX,
        a * u64::MAX <= u64::MAX * u64::MAX,
        u64::MAX * u64::MAX < u128::MAX,
{
    assert(0 <= a * b <= a * u64::MAX) by (nonlinear_arith)
        requires
            0 <= a,
            0 <= b <= u64::MAX,
    ;
    assert(a * u64::MAX <= u64::MAX * u64::MAX) by (nonlinear_arith)
        requires
            0 <= a <= u64::MAX,
    ;
}

} // verus!

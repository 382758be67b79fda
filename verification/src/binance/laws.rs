//! What holds of every ladder, proved from the model.

use vstd::prelude::*;
use crate::binance::ladder::{
    apply_changes, ascending, average_price, fill_cost, lemma_finite_map_is_listed, levels_of,
    Ladder, Quote, SNAPSHOT_REQUEST_INTERVAL, UNFILLABLE_BUY_PRICE, UNFILLABLE_SELL_PRICE,
};
use crate::binance::types::DepthDiff;
use crate::models::{OrderbookView, PriceLevel};

verus! {

/// A diff that ends at or before the snapshot changes nothing and counts as
/// applied, whatever it holds and however often it comes; a ready ladder
/// takes it from the stream without asking for a snapshot.
pub proof fn law_stale_diff_changes_nothing(ladder: Ladder, final_update_id: u64, diff: DepthDiff)
    requires
        final_update_id <= ladder.snapshot_seq,
    ensures
        ladder.apply_diff(final_update_id, diff) == ladder,
        ladder.accepts(final_update_id, diff),
        ladder.ready && diff.final_update_id == final_update_id ==> ladder.on_depth_event(diff)
            == ladder && !ladder.asks_for_snapshot(diff),
{
}

/// A diff that is not stale and does not start right after the last one
/// applied resets the ladder: it is no longer ready, its sequence numbers
/// are cleared, and the diff is the only one buffered. The levels stay as
/// they were, and a snapshot is asked for if the diff came from the stream
/// of a ready ladder.
pub proof fn law_gap_resets(ladder: Ladder, final_update_id: u64, diff: DepthDiff)
    requires
        final_update_id > ladder.snapshot_seq,
        ladder.last_diff_seq != 0,
        diff.first_update_id != ladder.last_diff_seq + 1,
    ensures
        !ladder.accepts(final_update_id, diff),
        ladder.apply_diff(final_update_id, diff) == (Ladder {
            ready: false,
            snapshot_seq: 0,
            last_diff_seq: 0,
            buffered: map![final_update_id => diff],
            ..ladder
        }),
        ladder.ready && diff.final_update_id == final_update_id ==> ladder.asks_for_snapshot(diff),
{
    assert(Map::<u64, DepthDiff>::empty().insert(final_update_id, diff) =~= map![final_update_id => diff]);
}

/// A diff that follows the last one applied is merged, and the ladder
/// remembers where it ended. If the diff does not end before it starts, the
/// last applied update id never goes down.
pub proof fn law_applied_diff_advances(ladder: Ladder, final_update_id: u64, diff: DepthDiff)
    requires
        final_update_id > ladder.snapshot_seq,
        ladder.last_diff_seq == 0 || diff.first_update_id == ladder.last_diff_seq + 1,
    ensures
        ladder.accepts(final_update_id, diff),
        ladder.apply_diff(final_update_id, diff).last_diff_seq == final_update_id,
        ladder.apply_diff(final_update_id, diff).ready == ladder.ready,
        ladder.apply_diff(final_update_id, diff).snapshot_seq == ladder.snapshot_seq,
        diff.first_update_id <= final_update_id ==> ladder.apply_diff(
            final_update_id,
            diff,
        ).last_diff_seq >= ladder.last_diff_seq,
{
}

/// The change listed last for a price decides: with quantity 0 the level is
/// gone, with any other quantity the level holds just that quantity.
pub proof fn law_last_change_decides(
    side: Map<u64, u64>,
    earlier: Seq<PriceLevel>,
    change: PriceLevel,
)
    ensures
        change.qty == 0 ==> !apply_changes(side, earlier.push(change)).contains_key(change.price),
        change.qty != 0 ==> apply_changes(side, earlier.push(change)).contains_key(change.price)
            && apply_changes(side, earlier.push(change))[change.price] == change.qty,
{
    assert(earlier.push(change).drop_last() =~= earlier);
    assert(earlier.push(change).last() == change);
}

/// A ladder that is not ready answers every price query with price 0 and
/// `false`, whatever the quantity and whatever levels it holds.
pub proof fn law_unready_answers_nothing(ladder: Ladder, amount: u64)
    requires
        !ladder.ready,
    ensures
        ladder.buy_quote(amount) == Quote::NotReady,
        ladder.sell_quote(amount) == Quote::NotReady,
        ladder.buy_quote(amount).buy_price() == (0u128, false),
        ladder.sell_quote(amount).sell_price() == (0u128, false),
{
}

/// A ready ladder answers every price query with `true`: a side too thin
/// for the quantity gives the fixed price of an unfillable order, not a
/// failure.
pub proof fn law_ready_always_answers(ladder: Ladder, amount: u64)
    requires
        ladder.ready,
    ensures
        ladder.buy_quote(amount).buy_price().1,
        ladder.sell_quote(amount).sell_price().1,
        ladder.buy_quote(amount) is Unfillable ==> ladder.buy_quote(amount).buy_price().0
            == UNFILLABLE_BUY_PRICE,
        ladder.sell_quote(amount) is Unfillable ==> ladder.sell_quote(amount).sell_price().0
            == UNFILLABLE_SELL_PRICE,
{
}

/// The levels that a query walks are those of the side, each price once and
/// in ascending order.
pub proof fn law_levels_are_the_side_in_price_order(side: Map<u64, u64>)
    requires
        side.dom().finite(),
    ensures
        forall|i: int, j: int|
            0 <= i < j < levels_of(side).len() ==> (#[trigger] levels_of(side)[i]).price < (
            #[trigger] levels_of(side)[j]).price,
        forall|i: int|
            0 <= i < levels_of(side).len() ==> side.contains_key(
                (#[trigger] levels_of(side)[i]).price,
            ) && side[levels_of(side)[i].price] == levels_of(side)[i].qty,
        forall|price: u64| #[trigger]
            side.contains_key(price) ==> exists|i: int|
                0 <= i < levels_of(side).len() && (#[trigger] levels_of(side)[i]).price == price,
{
    lemma_finite_map_is_listed(side);
    let listed = ascending(side);
    let levels = levels_of(side);
    assert forall|i: int, j: int| 0 <= i < j < levels.len() implies (#[trigger] levels[i]).price < (
    #[trigger] levels[j]).price by {
        assert(listed[i].0 < listed[j].0);
    }
    assert forall|i: int| 0 <= i < levels.len() implies side.contains_key(
        (#[trigger] levels[i]).price,
    ) && side[levels[i].price] == levels[i].qty by {
        assert(side.contains_key(listed[i].0));
    }
    assert forall|price: u64| #[trigger] side.contains_key(price) implies exists|i: int|
        0 <= i < levels.len() && (#[trigger] levels[i]).price == price by {
        let i = choose|i: int| 0 <= i < listed.len() && (#[trigger] listed[i]).0 == price;
        assert(levels[i].price == price);
    }
}

/// The quantity that the levels hold in all.
pub open spec fn total_quantity(levels: Seq<PriceLevel>) -> int
    decreases levels.len(),
{
    if levels.len() == 0 {
        0
    } else {
        levels[0].qty + total_quantity(levels.drop_first())
    }
}

/// A quantity can be filled exactly when the levels hold that much in all.
pub proof fn law_fillable_iff_enough(levels: Seq<PriceLevel>, amount: int)
    ensures
        fill_cost(levels, amount) is Some <==> amount <= total_quantity(levels),
        total_quantity(levels) >= 0,
    decreases levels.len(),
{
    if levels.len() > 0 {
        law_fillable_iff_enough(levels.drop_first(), amount - levels[0].qty);
    }
}

/// A fill costs no more than its quantity at the highest price a level can
/// have, so the cost fits in 128 bits and the average price in 64.
pub proof fn law_fill_cost_is_bounded(levels: Seq<PriceLevel>, amount: int)
    requires
        0 <= amount <= u64::MAX,
    ensures
        fill_cost(levels, amount) matches Some(cost) ==> 0 <= cost <= amount * u64::MAX && cost
            <= u128::MAX && average_price(cost, amount) <= u64::MAX,
    decreases levels.len(),
{
    if levels.len() > 0 {
        let price = levels[0].price as int;
        let qty = levels[0].qty as int;
        if amount <= qty {
            assert(0 <= amount * price <= amount * u64::MAX) by (nonlinear_arith)
                requires
                    0 <= amount,
                    0 <= price <= u64::MAX,
            ;
        } else {
            law_fill_cost_is_bounded(levels.drop_first(), amount - qty);
            assert(0 <= qty * price <= qty * u64::MAX) by (nonlinear_arith)
                requires
                    0 <= qty,
                    0 <= price <= u64::MAX,
            ;
            assert(qty * u64::MAX + (amount - qty) * u64::MAX == amount * u64::MAX)
                by (nonlinear_arith);
        }
    }
    if let Some(cost) = fill_cost(levels, amount) {
        assert(amount * u64::MAX <= u64::MAX * u64::MAX) by (nonlinear_arith)
            requires
                0 <= amount <= u64::MAX,
        ;
        if amount > 0 {
            assert(cost / amount <= u64::MAX) by (nonlinear_arith)
                requires
                    0 <= cost <= amount * u64::MAX,
                    amount > 0,
            ;
        }
    }
}

/// While a ladder is not ready, a diff asks for a snapshot only when the
/// buffered diffs, this one among them, number a multiple of the interval
/// beyond the first: never a diff that leaves the count off a multiple.
pub proof fn law_request_only_on_the_interval(ladder: Ladder, diff: DepthDiff)
    requires
        !ladder.ready,
    ensures
        ladder.asks_for_snapshot(diff) <==> (ladder.buffer(diff).buffered.len()
            > SNAPSHOT_REQUEST_INTERVAL && ladder.buffer(diff).buffered.len() % (
        SNAPSHOT_REQUEST_INTERVAL as nat) == 0),
        ladder.buffer(diff).buffered.len() % (SNAPSHOT_REQUEST_INTERVAL as nat) != 0
            ==> !ladder.asks_for_snapshot(diff),
        ladder.on_depth_event(diff) == ladder.buffer(diff),
{
}

/// A diff with a final update id that is not buffered yet adds one to the
/// number of buffered diffs; a diff with one that is buffered replaces the
/// diff kept under it and leaves the number as it is.
pub proof fn law_buffered_count(ladder: Ladder, diff: DepthDiff)
    requires
        ladder.buffered.dom().finite(),
    ensures
        ladder.buffer(diff).buffered.dom().finite(),
        ladder.buffer(diff).buffered.len() == ladder.buffered.len() + (if ladder.buffered.contains_key(
            diff.final_update_id,
        ) {
            0int
        } else {
            1int
        }),
{
    assert(ladder.buffer(diff).buffered.dom() =~= ladder.buffered.dom().insert(
        diff.final_update_id,
    ));
}

/// While a ladder is not ready, a diff with a final update id that is not
/// buffered yet asks for a snapshot exactly when it brings the number of
/// buffered diffs to a multiple of the interval beyond the first; the diff
/// that follows such a one, if it is new too, does not ask again.
pub proof fn law_one_request_per_interval(ladder: Ladder, diff: DepthDiff, next: DepthDiff)
    requires
        !ladder.ready,
        ladder.buffered.dom().finite(),
        !ladder.buffered.contains_key(diff.final_update_id),
        !ladder.buffer(diff).buffered.contains_key(next.final_update_id),
    ensures
        ladder.buffer(diff).buffered.len() == ladder.buffered.len() + 1,
        ladder.asks_for_snapshot(diff) <==> (ladder.buffered.len() + 1 > SNAPSHOT_REQUEST_INTERVAL
            && (ladder.buffered.len() + 1) % (SNAPSHOT_REQUEST_INTERVAL as nat) == 0),
        ladder.asks_for_snapshot(diff) ==> !ladder.buffer(diff).asks_for_snapshot(next),
{
    let after = ladder.buffer(diff);
    assert(after.buffered.dom() =~= ladder.buffered.dom().insert(diff.final_update_id));
    assert(after.buffer(next).buffered.dom() =~= after.buffered.dom().insert(
        next.final_update_id,
    ));
}

/// The order in which two diffs with different final update ids are buffered
/// makes no difference, so neither does the order in which diffs arrive
/// before a snapshot.
pub proof fn law_buffering_order_is_irrelevant(ladder: Ladder, first: DepthDiff, second: DepthDiff)
    requires
        first.final_update_id != second.final_update_id,
    ensures
        ladder.buffer(first).buffer(second) == ladder.buffer(second).buffer(first),
{
    assert(ladder.buffer(first).buffer(second).buffered =~= ladder.buffer(second).buffer(
        first,
    ).buffered);
}

/// A replay passes over a diff that ends at or before the snapshot.
pub proof fn law_replay_skips_stale(ladder: Ladder, diffs: Seq<(u64, DepthDiff)>)
    requires
        diffs.len() > 0,
        diffs[0].0 <= ladder.snapshot_seq,
    ensures
        ladder.replay(diffs) == ladder.replay(diffs.drop_first()),
{
}

/// A new ladder is settled, and a settled ladder stays so whatever diff the
/// stream brings and whatever snapshot is delivered.
pub proof fn law_ladder_stays_settled(ladder: Ladder, diff: DepthDiff, snapshot: OrderbookView)
    ensures
        Ladder::empty(ladder.symbol).settled(),
        ladder.settled() ==> ladder.on_depth_event(diff).settled(),
        ladder.settled() ==> ladder.deliver(snapshot).settled(),
{
    if ladder.settled() {
        let after = ladder.on_depth_event(diff);
        assert(after.buffered.dom().finite());
        if ladder.snapshot_seq == 0 {
            law_adoption_ends_ready_or_reset(ladder, snapshot);
        }
    }
}

/// A fetched snapshot changes nothing once the ladder holds a snapshot.
pub proof fn law_late_snapshot_is_dropped(ladder: Ladder, snapshot: OrderbookView)
    requires
        ladder.snapshot_seq != 0,
    ensures
        ladder.deliver(snapshot) == ladder,
{
}

/// After a snapshot has been adopted, the ladder is either ready, with the
/// snapshot's update id and nothing buffered, or it met a gap and is reset:
/// not ready, without sequence numbers, and with one diff buffered.
pub proof fn law_adoption_ends_ready_or_reset(ladder: Ladder, snapshot: OrderbookView)
    ensures
        ({
            let after = ladder.adopt(snapshot);
            if after.ready {
                after.snapshot_seq == snapshot.timestamp && after.buffered == Map::<
                    u64,
                    DepthDiff,
                >::empty()
            } else {
                after.snapshot_seq == 0 && after.last_diff_seq == 0 && after.buffered.len() == 1
                    && after.buffered.dom().finite()
            }
        }),
{
    let start = ladder.rebased(snapshot);
    lemma_replay_ends_ready_or_reset(start, ascending(ladder.buffered));
}

/// A replay over a ladder with nothing buffered ends ready, with the
/// snapshot it started from, or reset by a gap.
proof fn lemma_replay_ends_ready_or_reset(ladder: Ladder, diffs: Seq<(u64, DepthDiff)>)
    requires
        ladder.buffered == Map::<u64, DepthDiff>::empty(),
    ensures
        ({
            let after = ladder.replay(diffs);
            if after.ready {
                after.snapshot_seq == ladder.snapshot_seq && after.buffered == Map::<
                    u64,
                    DepthDiff,
                >::empty()
            } else {
                after.snapshot_seq == 0 && after.last_diff_seq == 0 && after.buffered.len() == 1
                    && after.buffered.dom().finite()
            }
        }),
    decreases diffs.len(),
{
    if diffs.len() > 0 {
        if ladder.accepts(diffs[0].0, diffs[0].1) {
            lemma_replay_ends_ready_or_reset(
                ladder.apply_diff(diffs[0].0, diffs[0].1),
                diffs.drop_first(),
            );
        } else {
            let after = ladder.replay(diffs);
            assert(after.buffered.dom() =~= set![diffs[0].0]);
        }
    }
}

} // verus!

use rsex::binance::ladder::{Quote, UNFILLABLE_BUY_PRICE, UNFILLABLE_SELL_PRICE};
use rsex::binance::spot_ws::LocalOrderBook;
use rsex::binance::types::DepthOrderbookEvent;
use rsex::models::{Orderbook, PriceLevel, PRICE_SCALE};

fn level(price: u64, qty: u64) -> PriceLevel {
    PriceLevel { price, qty }
}

fn diff(first: u64, last: u64, bids: Vec<PriceLevel>, asks: Vec<PriceLevel>) -> DepthOrderbookEvent {
    DepthOrderbookEvent { first_update_id: first, final_update_id: last, bids, asks }
}

fn snapshot(timestamp: u64, asks: Vec<PriceLevel>, bids: Vec<PriceLevel>) -> Orderbook {
    Orderbook { timestamp, asks, bids }
}

fn ready_book(timestamp: u64, asks: Vec<PriceLevel>, bids: Vec<PriceLevel>) -> LocalOrderBook {
    let mut book = LocalOrderBook::new(String::from("btcusdt"));
    assert!(!book.save_depth_snapshot(snapshot(timestamp, asks, bids)));
    assert!(book.is_ready());
    book
}

#[test]
fn new_book_is_empty_and_unready() {
    let book = LocalOrderBook::new(String::from("ethusdt"));
    assert_eq!(book.symbol(), "ethusdt");
    assert!(!book.is_ready());
    assert_eq!(book.rest_update_id(), 0);
    assert_eq!(book.ws_final_update_id(), 0);
    assert_eq!(book.buffered_len(), 0);
    assert!(book.asks().is_empty());
    assert!(book.bids().is_empty());
}

#[test]
fn stale_diff_is_dropped_and_counts_as_applied() {
    let mut book = ready_book(100, vec![level(10, 1)], vec![level(9, 2)]);
    for final_update_id in [0u64, 1, 99, 100] {
        let stale = diff(7, final_update_id, vec![level(9, 0)], vec![level(10, 0), level(11, 5)]);
        assert!(book.update(final_update_id, &stale));
        assert_eq!(book.asks(), vec![level(10, 1)]);
        assert_eq!(book.bids(), vec![level(9, 2)]);
        assert!(book.is_ready());
        assert_eq!(book.rest_update_id(), 100);
        assert_eq!(book.ws_final_update_id(), 0);
        assert_eq!(book.buffered_len(), 0);
    }
}

#[test]
fn stale_diff_from_the_stream_asks_for_nothing() {
    let mut book = ready_book(100, vec![level(10, 1)], vec![]);
    assert!(!book.on_depth_event(diff(90, 100, vec![], vec![level(10, 0)])));
    assert!(!book.on_depth_event(diff(90, 100, vec![], vec![level(10, 0)])));
    assert_eq!(book.asks(), vec![level(10, 1)]);
    assert!(book.is_ready());
}

#[test]
fn gap_resets_the_book_and_keeps_the_diff() {
    let mut book = ready_book(50, vec![level(10, 1)], vec![level(9, 1)]);
    assert!(!book.on_depth_event(diff(51, 100, vec![], vec![level(11, 4)])));
    assert_eq!(book.ws_final_update_id(), 100);
    assert!(book.on_depth_event(diff(105, 110, vec![], vec![level(12, 6)])));
    assert!(!book.is_ready());
    assert_eq!(book.rest_update_id(), 0);
    assert_eq!(book.ws_final_update_id(), 0);
    assert_eq!(book.buffered_len(), 1);
    assert_eq!(book.asks(), vec![level(10, 1), level(11, 4)]);
    assert_eq!(book.quote_buy(1), Quote::NotReady);
}

#[test]
fn update_reports_a_gap_with_false() {
    let mut book = ready_book(50, vec![], vec![]);
    assert!(book.update(100, &diff(51, 100, vec![], vec![])));
    assert!(!book.update(110, &diff(105, 110, vec![], vec![])));
    assert_eq!(book.buffered_len(), 1);
}

#[test]
fn diff_that_follows_is_merged() {
    let mut book = ready_book(50, vec![level(10, 1)], vec![level(9, 1)]);
    assert!(!book.on_depth_event(diff(51, 60, vec![level(8, 3)], vec![level(11, 4)])));
    assert!(!book.on_depth_event(diff(61, 61, vec![level(9, 0)], vec![level(10, 7)])));
    assert_eq!(book.asks(), vec![level(10, 7), level(11, 4)]);
    assert_eq!(book.bids(), vec![level(8, 3)]);
    assert_eq!(book.ws_final_update_id(), 61);
    assert_eq!(book.rest_update_id(), 50);
    assert!(book.is_ready());
}

#[test]
fn buffered_diffs_are_replayed_in_ascending_order() {
    let mut book = LocalOrderBook::new(String::from("btcusdt"));
    assert!(!book.on_depth_event(diff(106, 110, vec![], vec![level(200, 2)])));
    assert!(!book.on_depth_event(diff(99, 101, vec![], vec![level(300, 7)])));
    assert!(!book.on_depth_event(diff(102, 105, vec![], vec![level(200, 1), level(201, 1)])));
    assert_eq!(book.buffered_len(), 3);
    assert!(!book.is_ready());
    let need = book.save_depth_snapshot(snapshot(103, vec![level(199, 9)], vec![level(198, 9)]));
    assert!(!need);
    assert!(book.is_ready());
    assert_eq!(book.rest_update_id(), 103);
    assert_eq!(book.ws_final_update_id(), 110);
    assert_eq!(book.buffered_len(), 0);
    assert_eq!(book.asks(), vec![level(199, 9), level(200, 2), level(201, 1)]);
    assert_eq!(book.bids(), vec![level(198, 9)]);
}

#[test]
fn gap_in_the_replay_leaves_the_book_unready() {
    let mut book = LocalOrderBook::new(String::from("btcusdt"));
    book.on_depth_event(diff(104, 105, vec![], vec![level(200, 1)]));
    book.on_depth_event(diff(108, 110, vec![], vec![level(200, 2)]));
    book.on_depth_event(diff(111, 120, vec![], vec![level(200, 3)]));
    let need = book.save_depth_snapshot(snapshot(103, vec![], vec![]));
    assert!(need);
    assert!(!book.is_ready());
    assert_eq!(book.rest_update_id(), 0);
    assert_eq!(book.ws_final_update_id(), 0);
    assert_eq!(book.buffered_len(), 1);
    assert_eq!(book.asks(), vec![level(200, 1)]);
}

#[test]
fn snapshot_replaces_the_levels() {
    let mut book = ready_book(10, vec![level(5, 1), level(6, 1)], vec![level(4, 1)]);
    assert!(!book.save_depth_snapshot(snapshot(20, vec![level(7, 2)], vec![level(3, 2)])));
    assert_eq!(book.asks(), vec![level(7, 2)]);
    assert_eq!(book.bids(), vec![level(3, 2)]);
    assert_eq!(book.rest_update_id(), 20);
    assert_eq!(book.ws_final_update_id(), 0);
}

#[test]
fn snapshot_listing_a_price_twice_keeps_the_last() {
    let book = ready_book(10, vec![level(5, 1), level(5, 4)], vec![]);
    assert_eq!(book.asks(), vec![level(5, 4)]);
}

#[test]
fn late_snapshot_is_dropped() {
    let mut book = ready_book(10, vec![level(5, 1)], vec![]);
    assert!(!book.deliver_snapshot(snapshot(20, vec![level(7, 2)], vec![])));
    assert_eq!(book.rest_update_id(), 10);
    assert_eq!(book.asks(), vec![level(5, 1)]);
}

#[test]
fn snapshot_is_adopted_while_the_held_update_id_is_zero() {
    let mut book = LocalOrderBook::new(String::from("btcusdt"));
    assert!(!book.deliver_snapshot(snapshot(0, vec![level(5, 1)], vec![])));
    assert!(book.is_ready());
    assert_eq!(book.rest_update_id(), 0);
    assert!(!book.on_depth_event(diff(1, 3, vec![], vec![level(6, 2)])));
    assert_eq!(book.asks(), vec![level(5, 1), level(6, 2)]);
    assert!(!book.deliver_snapshot(snapshot(2, vec![level(7, 2)], vec![])));
    assert!(book.is_ready());
    assert_eq!(book.asks(), vec![level(7, 2)]);
    assert_eq!(book.rest_update_id(), 2);
    assert_eq!(book.ws_final_update_id(), 0);
    assert!(!book.deliver_snapshot(snapshot(9, vec![level(8, 1)], vec![])));
    assert_eq!(book.asks(), vec![level(7, 2)]);
    assert_eq!(book.rest_update_id(), 2);
}

#[test]
fn snapshot_is_adopted_again_after_a_gap() {
    let mut book = ready_book(10, vec![level(5, 1)], vec![]);
    assert!(!book.on_depth_event(diff(11, 12, vec![], vec![])));
    assert!(book.on_depth_event(diff(20, 21, vec![], vec![level(6, 1)])));
    assert!(!book.deliver_snapshot(snapshot(19, vec![level(7, 2)], vec![])));
    assert!(book.is_ready());
    assert_eq!(book.rest_update_id(), 19);
    assert_eq!(book.ws_final_update_id(), 21);
    assert_eq!(book.asks(), vec![level(6, 1), level(7, 2)]);
}

#[test]
fn delivered_snapshot_is_adopted_while_none_is_held() {
    let mut book = LocalOrderBook::new(String::from("btcusdt"));
    assert!(!book.deliver_snapshot(snapshot(20, vec![level(7, 2)], vec![])));
    assert!(book.is_ready());
    assert_eq!(book.rest_update_id(), 20);
    assert_eq!(book.asks(), vec![level(7, 2)]);
}

#[test]
fn zero_quantity_removes_the_level() {
    let mut book = ready_book(1, vec![], vec![]);
    assert!(book.update(2, &diff(2, 2, vec![], vec![level(100, 5)])));
    assert_eq!(book.asks(), vec![level(100, 5)]);
    assert!(book.update(3, &diff(3, 3, vec![], vec![level(100, 0)])));
    assert!(book.asks().is_empty());
}

#[test]
fn changes_of_one_diff_apply_in_their_order() {
    let mut book = ready_book(1, vec![], vec![]);
    let changes = vec![level(100, 5), level(100, 0), level(101, 1), level(101, 2), level(102, 0)];
    assert!(book.update(2, &diff(2, 2, changes.clone(), changes)));
    assert_eq!(book.asks(), vec![level(101, 2)]);
    assert_eq!(book.bids(), vec![level(101, 2)]);
}

#[test]
fn unready_book_answers_zero_and_false() {
    let mut book = LocalOrderBook::new(String::from("btcusdt"));
    book.on_depth_event(diff(1, 2, vec![level(9, 9)], vec![level(10, 9)]));
    for amount in [0u64, 1, 4, u64::MAX] {
        assert_eq!(book.quote_buy(amount), Quote::NotReady);
        assert_eq!(book.quote_sell(amount), Quote::NotReady);
        assert_eq!(book.quote_buy(amount).buy_price(), (0, false));
        assert_eq!(book.quote_sell(amount).sell_price(), (0, false));
    }
}

#[test]
fn buy_takes_the_remainder_from_the_last_level() {
    let asks = vec![level(100 * PRICE_SCALE, 2 * PRICE_SCALE), level(101 * PRICE_SCALE, 3 * PRICE_SCALE)];
    let book = ready_book(1, asks, vec![]);
    let quote = book.quote_buy(4 * PRICE_SCALE);
    let cost = 2 * (PRICE_SCALE as u128) * 100 * (PRICE_SCALE as u128)
        + 2 * (PRICE_SCALE as u128) * 101 * (PRICE_SCALE as u128);
    assert_eq!(quote, Quote::Filled { cost, average: 10_050_000_000 });
    assert_eq!(quote.buy_price(), (10_050_000_000, true));
}

#[test]
fn buy_average_in_plain_units_rounds_down() {
    let book = ready_book(1, vec![level(100, 2), level(101, 3)], vec![]);
    assert_eq!(book.quote_buy(4), Quote::Filled { cost: 402, average: 100 });
    assert_eq!(book.quote_buy(2), Quote::Filled { cost: 200, average: 100 });
    assert_eq!(book.quote_buy(5), Quote::Filled { cost: 503, average: 100 });
    assert_eq!(book.quote_buy(1), Quote::Filled { cost: 100, average: 100 });
}

#[test]
fn sell_walks_the_bids_from_the_highest_price() {
    let bids = vec![level(97, 5), level(99, 1), level(98, 2)];
    let book = ready_book(1, vec![level(100, 1)], bids);
    assert_eq!(book.quote_sell(2), Quote::Filled { cost: 99 + 98, average: 98 });
    assert_eq!(book.quote_sell(8), Quote::Filled { cost: 99 + 2 * 98 + 5 * 97, average: 97 });
    assert_eq!(book.quote_sell(8).sell_price(), (97, true));
}

#[test]
fn thin_side_gives_the_price_of_an_unfillable_order() {
    let book = ready_book(1, vec![level(100, 2), level(101, 3)], vec![level(99, 5)]);
    assert_eq!(book.quote_buy(10), Quote::Unfillable);
    assert_eq!(book.quote_buy(10).buy_price(), (UNFILLABLE_BUY_PRICE, true));
    assert_eq!(book.quote_buy(6).buy_price(), (UNFILLABLE_BUY_PRICE, true));
    assert_eq!(book.quote_sell(6), Quote::Unfillable);
    assert_eq!(book.quote_sell(6).sell_price(), (UNFILLABLE_SELL_PRICE, true));
    assert_eq!(UNFILLABLE_BUY_PRICE, 999_999_999_999 * (PRICE_SCALE as u128));
    assert_eq!(UNFILLABLE_SELL_PRICE, 0);
}

#[test]
fn empty_side_fills_nothing_but_a_zero_quantity() {
    let book = ready_book(1, vec![], vec![]);
    assert_eq!(book.quote_buy(1), Quote::Unfillable);
    assert_eq!(book.quote_sell(1), Quote::Unfillable);
    assert_eq!(book.quote_buy(0), Quote::Filled { cost: 0, average: 0 });
    assert_eq!(book.quote_sell(0), Quote::Filled { cost: 0, average: 0 });
}

#[test]
fn zero_quantity_costs_nothing() {
    let book = ready_book(1, vec![level(100, 2)], vec![level(99, 2)]);
    assert_eq!(book.quote_buy(0), Quote::Filled { cost: 0, average: 0 });
    assert_eq!(book.quote_sell(0).sell_price(), (0, true));
}

#[test]
fn largest_values_do_not_overflow() {
    let book = ready_book(1, vec![level(u64::MAX, u64::MAX)], vec![]);
    let cost = (u64::MAX as u128) * (u64::MAX as u128);
    assert_eq!(book.quote_buy(u64::MAX), Quote::Filled { cost, average: u64::MAX });
}

#[test]
fn snapshot_is_asked_for_once_per_interval() {
    let mut book = LocalOrderBook::new(String::from("btcusdt"));
    let mut asked = Vec::new();
    for n in 1u64..=125 {
        if book.on_depth_event(diff(n, n, vec![], vec![])) {
            asked.push(n);
        }
        assert_eq!(book.buffered_len() as u64, n);
    }
    assert_eq!(asked, vec![60, 90, 120]);
    assert!(!book.is_ready());
}

#[test]
fn diff_with_a_buffered_final_id_at_the_interval_asks_again() {
    let mut book = LocalOrderBook::new(String::from("btcusdt"));
    for n in 1u64..=59 {
        assert!(!book.on_depth_event(diff(n, n, vec![], vec![])));
    }
    assert!(book.on_depth_event(diff(60, 60, vec![], vec![])));
    assert!(book.on_depth_event(diff(59, 60, vec![], vec![])));
    assert_eq!(book.buffered_len(), 60);
    assert!(!book.on_depth_event(diff(61, 61, vec![], vec![])));
}

#[test]
fn diff_with_a_buffered_final_id_replaces_the_buffered_one() {
    let mut book = LocalOrderBook::new(String::from("btcusdt"));
    book.on_depth_event(diff(1, 5, vec![], vec![level(10, 1)]));
    book.on_depth_event(diff(2, 5, vec![], vec![level(10, 2)]));
    assert_eq!(book.buffered_len(), 1);
    assert!(!book.save_depth_snapshot(snapshot(1, vec![], vec![])));
    assert_eq!(book.asks(), vec![level(10, 2)]);
}

#[test]
fn snapshot_with_update_id_zero_is_adopted_like_any_other() {
    let mut book = LocalOrderBook::new(String::from("btcusdt"));
    book.on_depth_event(diff(1, 5, vec![], vec![level(10, 1)]));
    assert!(!book.save_depth_snapshot(snapshot(0, vec![level(11, 1)], vec![])));
    assert!(book.is_ready());
    assert_eq!(book.asks(), vec![level(10, 1), level(11, 1)]);
    assert_eq!(book.ws_final_update_id(), 5);
}

#[test]
fn gap_check_holds_at_the_largest_update_id() {
    let mut book = ready_book(1, vec![], vec![]);
    assert!(book.update(u64::MAX, &diff(2, u64::MAX, vec![], vec![])));
    assert!(!book.update(u64::MAX, &diff(0, u64::MAX, vec![], vec![])));
    assert!(!book.is_ready());
}

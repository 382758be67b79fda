use rsex::binance::registry::Registry;
use rsex::binance::spot_ws::{
    classify, init_static_local_orderbook, BinanceWs, LocalOrderBook, PayloadKind, ResponseEvent,
    StreamMessage, WsEvent,
};
use rsex::binance::types::DepthOrderbookEvent;
use rsex::errors::DecodeError;
use rsex::models::{Orderbook, PriceLevel, Ticker};
use rsex::text::{decimal, holds_name, join, prefix_before, same_text};
use serde_json::Value;
use rsex::traits::{retry_again, SpotWs};

fn diff(first: u64, last: u64) -> DepthOrderbookEvent {
    DepthOrderbookEvent { first_update_id: first, final_update_id: last, bids: vec![], asks: vec![] }
}

fn field_names(value: Option<&Value>) -> Vec<String> {
    match value.and_then(|v| v.as_object()) {
        Some(fields) => fields.keys().cloned().collect(),
        None => Vec::new(),
    }
}

fn event_type(value: Option<&Value>) -> String {
    match value.and_then(|v| v.get("e")).and_then(|v| v.as_str()) {
        Some(text) => String::from(text),
        None => String::new(),
    }
}

fn told(payload: &str) -> Result<PayloadKind, DecodeError> {
    let root: Value = serde_json::from_str(payload).unwrap();
    classify(
        &field_names(Some(&root)),
        &event_type(Some(&root)),
        &field_names(root.get("data")),
        &event_type(root.get("data")),
    )
}

fn names(list: &[&str]) -> Vec<String> {
    list.iter().map(|name| String::from(*name)).collect()
}

#[test]
fn answer_to_a_request_is_told_first() {
    assert_eq!(told("{\"result\":null,\"id\":1}"), Ok(PayloadKind::Response));
    assert_eq!(
        told("{\"result\":null,\"stream\":\"btcusdt@kline_1m\",\"data\":{\"e\":\"kline\"}}"),
        Ok(PayloadKind::Response)
    );
    assert_eq!(told("{\"e\":\"kline\",\"result\":1}"), Ok(PayloadKind::Response));
}

#[test]
fn result_inside_the_data_is_no_answer() {
    assert_eq!(
        told("{\"stream\":\"btcusdt@kline_1m\",\"data\":{\"result\":1,\"e\":\"kline\"}}"),
        Ok(PayloadKind::StreamKline)
    );
    assert_eq!(told("{\"e\":\"kline\",\"s\":\"result\"}"), Ok(PayloadKind::Kline));
}

#[test]
fn combined_stream_payloads_are_told_by_their_data() {
    assert_eq!(
        told("{\"stream\":\"btcusdt@kline_1m\",\"data\":{\"e\":\"kline\",\"k\":{}}}"),
        Ok(PayloadKind::StreamKline)
    );
    assert_eq!(
        told("{\"stream\":\"btcusdt@depth20\",\"data\":{\"lastUpdateId\":5,\"bids\":[],\"asks\":[]}}"),
        Ok(PayloadKind::StreamOrderbook)
    );
    assert_eq!(
        told("{\"stream\":\"btcusdt@aggTrade\",\"data\":{\"e\":\"aggTrade\",\"p\":\"1\"}}"),
        Ok(PayloadKind::StreamTrade)
    );
    assert_eq!(
        told("{\"stream\":\"btcusdt@bookTicker\",\"data\":{\"u\":4,\"b\":\"1\",\"B\":\"2\",\"a\":\"3\",\"A\":\"4\"}}"),
        Ok(PayloadKind::StreamTicker)
    );
    assert_eq!(
        told("{\"stream\":\"ethusdt@depth@100ms\",\"data\":{\"e\":\"depthUpdate\",\"U\":1,\"u\":2,\"b\":[],\"a\":[]}}"),
        Ok(PayloadKind::StreamDepth)
    );
    assert_eq!(
        told("{\"stream\":\"ethusdt@other\",\"data\":{}}"),
        Err(DecodeError::ChannelNotFound)
    );
    assert_eq!(told("{\"stream\":\"ethusdt@other\"}"), Err(DecodeError::ChannelNotFound));
    assert_eq!(told("{\"stream\":\"ethusdt@other\",\"data\":7}"), Err(DecodeError::ChannelNotFound));
}

#[test]
fn single_stream_payloads_are_told_by_themselves() {
    assert_eq!(told("{\"e\":\"kline\",\"s\":\"ETHUSDT\",\"k\":{}}"), Ok(PayloadKind::Kline));
    assert_eq!(
        told("{\"lastUpdateId\":5,\"bids\":[],\"asks\":[]}"),
        Err(DecodeError::SingleOrderbookNotSupported)
    );
    assert_eq!(told("{\"e\":\"aggTrade\",\"p\":\"1\"}"), Ok(PayloadKind::Trade));
    assert_eq!(
        told("{\"u\":4,\"b\":\"1\",\"B\":\"2\",\"a\":\"3\",\"A\":\"4\"}"),
        Ok(PayloadKind::Ticker)
    );
    assert_eq!(
        told("{\"e\":\"depthUpdate\",\"U\":1,\"u\":2,\"b\":[],\"a\":[]}"),
        Err(DecodeError::ChannelNotFound)
    );
    assert_eq!(told("{}"), Err(DecodeError::ChannelNotFound));
    assert_eq!(told("[1,2]"), Err(DecodeError::ChannelNotFound));
    assert_eq!(classify(&vec![], "", &vec![], ""), Err(DecodeError::ChannelNotFound));
}

#[test]
fn earlier_mark_wins_over_a_later_one() {
    assert_eq!(
        told("{\"e\":\"kline\",\"lastUpdateId\":1,\"A\":1,\"B\":1}"),
        Ok(PayloadKind::Kline)
    );
    assert_eq!(
        told("{\"lastUpdateId\":1,\"e\":\"aggTrade\",\"A\":1,\"B\":1}"),
        Err(DecodeError::SingleOrderbookNotSupported)
    );
    assert_eq!(told("{\"e\":\"aggTrade\",\"A\":1,\"B\":1}"), Ok(PayloadKind::Trade));
    assert_eq!(
        told("{\"stream\":\"x@y\",\"data\":{\"e\":\"depthUpdate\",\"A\":\"1\",\"B\":\"2\"}}"),
        Ok(PayloadKind::StreamTicker)
    );
    assert_eq!(
        told("{\"stream\":\"x@y\",\"data\":{\"e\":\"aggTrade\",\"lastUpdateId\":3}}"),
        Ok(PayloadKind::StreamOrderbook)
    );
    assert_eq!(told("{\"A\":1}"), Err(DecodeError::ChannelNotFound));
    assert_eq!(told("{\"B\":1}"), Err(DecodeError::ChannelNotFound));
}

#[test]
fn letters_in_a_symbol_are_no_ticker_fields() {
    let payload = "{\"stream\":\"adabtc@depth@100ms\",\"data\":{\"e\":\"depthUpdate\",\"E\":1,\
                   \"s\":\"ADABTC\",\"U\":157,\"u\":160,\"b\":[],\"a\":[]}}";
    assert_eq!(told(payload), Ok(PayloadKind::StreamDepth));
    assert_eq!(
        classify(
            &names(&["stream", "data"]),
            "",
            &names(&["e", "E", "s", "U", "u", "b", "a"]),
            "depthUpdate"
        ),
        Ok(PayloadKind::StreamDepth)
    );
    assert_eq!(told("{\"e\":\"24hrTicker\",\"s\":\"ADABTC\",\"b\":\"1\",\"a\":\"2\"}"), Err(DecodeError::ChannelNotFound));
}

#[test]
fn marks_are_whole_names_and_whole_event_types() {
    assert_eq!(told("{\"streams\":1,\"e\":\"kline\"}"), Ok(PayloadKind::Kline));
    assert_eq!(told("{\"e\":\"kline_1m\"}"), Err(DecodeError::ChannelNotFound));
    assert_eq!(told("{\"e\":\"Kline\"}"), Err(DecodeError::ChannelNotFound));
    assert_eq!(told("{\"lastUpdateIds\":1}"), Err(DecodeError::ChannelNotFound));
    assert_eq!(told("{\"AB\":1,\"BA\":1}"), Err(DecodeError::ChannelNotFound));
    assert_eq!(told("{\"e\":7,\"k\":{}}"), Err(DecodeError::ChannelNotFound));
}

#[test]
fn combined_stream_is_told_by_its_data_alone() {
    assert_eq!(
        told("{\"stream\":\"btcusdt@kline_1m\",\"e\":\"kline\",\"data\":{\"e\":\"depthUpdate\"}}"),
        Ok(PayloadKind::StreamDepth)
    );
    assert_eq!(
        told("{\"stream\":\"s\",\"e\":\"kline\",\"lastUpdateId\":1,\"data\":{}}"),
        Err(DecodeError::ChannelNotFound)
    );
    assert_eq!(
        told("{\"e\":\"kline\",\"data\":{\"e\":\"aggTrade\"}}"),
        Ok(PayloadKind::Kline)
    );
}

#[test]
fn names_are_found_among_the_fields() {
    let fields = names(&["e", "lastUpdateId", "\u{e9}\u{20ac}", ""]);
    assert!(holds_name(&fields, "e"));
    assert!(holds_name(&fields, "lastUpdateId"));
    assert!(holds_name(&fields, "\u{e9}\u{20ac}"));
    assert!(holds_name(&fields, ""));
    assert!(!holds_name(&fields, "E"));
    assert!(!holds_name(&fields, "lastUpdateI"));
    assert!(!holds_name(&vec![], ""));
    assert!(same_text("depthUpdate", "depthUpdate"));
    assert!(!same_text("depthUpdate", "depthupdate"));
    assert!(same_text("", ""));
    assert!(!same_text("a", ""));
}

#[test]
fn decode_errors_have_their_texts() {
    assert_eq!(DecodeError::ChannelNotFound.message(), "msg channel not found");
    assert_eq!(DecodeError::SingleOrderbookNotSupported.message(), "Single orderbook not support");
}

#[test]
fn symbol_is_the_stream_name_before_the_first_at() {
    let named = |stream: &str| StreamMessage { stream: String::from(stream), data: 0u8 }.get_symbol();
    assert_eq!(named("btcusdt@depth@100ms"), "btcusdt");
    assert_eq!(named("ethusdt@kline_1m"), "ethusdt");
    assert_eq!(named("btcusdt"), "btcusdt");
    assert_eq!(named(""), "");
    assert_eq!(named("@depth"), "");
    assert_eq!(named("x@"), "x");
    assert_eq!(prefix_before("\u{e9}\u{20ac}@z", '@'), "\u{e9}\u{20ac}");
}

#[test]
fn numbers_are_written_in_decimal() {
    assert_eq!(decimal(0), "0");
    assert_eq!(decimal(7), "7");
    assert_eq!(decimal(10), "10");
    assert_eq!(decimal(1234567890), "1234567890");
    assert_eq!(decimal(u128::MAX), "340282366920938463463374607431768211455");
}

#[test]
fn texts_are_joined_with_the_separator() {
    assert_eq!(join(&vec![], "/"), "");
    assert_eq!(join(&vec![String::from("a")], "/"), "a");
    assert_eq!(join(&vec![String::from("a"), String::from(""), String::from("c")], "--"), "a----c");
}

#[test]
fn subscriptions_are_recorded_in_lowercase_and_numbered() {
    let mut client = BinanceWs::new("wss://stream.example/ws");
    assert_eq!(client.host(), "wss://stream.example/ws");
    assert!(client.subs().is_empty());
    client.sub_kline("BTCUSDT", "5m");
    client.sub_orderbook("EthUsdt");
    client.sub_trade("btcusdt");
    client.sub_ticker("BTCUSDT");
    assert_eq!(
        client.subs(),
        &vec![
            String::from("{\"method\": \"SUBSCRIBE\", \"params\": [\"btcusdt@kline_5m\"], \"id\": 1}"),
            String::from("{\"method\": \"SUBSCRIBE\", \"params\": [\"ethusdt@depth20\"], \"id\": 2}"),
            String::from("{\"method\": \"SUBSCRIBE\", \"params\": [\"btcusdt@aggTrade\"], \"id\": 3}"),
            String::from("{\"method\": \"SUBSCRIBE\", \"params\": [\"btcusdt@bookTicker\"], \"id\": 4}"),
        ]
    );
    for _ in 0..8 {
        client.sub_trade("x");
    }
    assert_eq!(
        client.subs()[11],
        "{\"method\": \"SUBSCRIBE\", \"params\": [\"x@aggTrade\"], \"id\": 12}"
    );
}

#[test]
fn order_updates_are_not_subscribed() {
    let mut client = BinanceWs::new("wss://stream.example/ws");
    client.sub_order_update("btcusdt");
    assert!(client.subs().is_empty());
    assert_eq!(client.host(), "wss://stream.example/ws");
}

#[test]
fn registry_holds_one_book_for_each_lowercase_symbol() {
    let registry = init_static_local_orderbook(&vec!["BTCUSDT", "ethusdt", "btcusdt", "EthUsdt"]);
    for symbol in ["btcusdt", "BTCUSDT", "BtcUsdt", "ethusdt", "ETHUSDT"] {
        let book = registry.lookup(symbol);
        assert!(book.is_some());
        assert_eq!(book.map(|b| b.symbol().clone()), Some(symbol.to_lowercase()));
        assert_eq!(book.map(|b| b.is_ready()), Some(false));
    }
    assert!(registry.lookup("eosusdt").is_none());
    assert!(registry.lookup("").is_none());
    let symbols: Vec<String> = registry.into_books().iter().map(|b| b.symbol().clone()).collect();
    assert_eq!(symbols, vec![String::from("btcusdt"), String::from("ethusdt")]);
}

#[test]
fn registry_contains_exactly_its_lowercase_symbols() {
    let registry = init_static_local_orderbook(&vec!["BTCUSDT"]);
    assert!(registry.contains("btcusdt"));
    assert!(!registry.contains("BTCUSDT"));
    assert!(!registry.contains("btcusd"));
    assert!(!registry.contains(""));
}

#[test]
fn empty_registry_finds_nothing() {
    let registry = Registry::new();
    assert!(registry.lookup("btcusdt").is_none());
    assert_eq!(registry.query_buy_price("btcusdt", 1), None);
    assert!(init_static_local_orderbook(&vec![]).into_books().is_empty());
}

#[test]
fn local_orderbooks_are_built_with_the_address_of_their_stream() {
    let symbols = vec![String::from("BTCUSDT"), String::from("ethusdt"), String::from("eosusdt")];
    let (registry, client) = BinanceWs::build_local_orderbook("wss://stream.example:9443", &symbols);
    assert_eq!(
        client.host(),
        "wss://stream.example:9443/stream?streams=btcusdt@depth@100ms/ethusdt@depth@100ms/eosusdt@depth@100ms"
    );
    assert!(client.subs().is_empty());
    assert!(registry.lookup("btcusdt").is_some());
    assert!(registry.lookup("ethusdt").is_some());
    assert!(registry.lookup("eosusdt").is_some());
    assert!(registry.lookup("xrpusdt").is_none());
    let (none, bare) = BinanceWs::build_local_orderbook("wss://h", &vec![]);
    assert_eq!(bare.host(), "wss://h/stream?streams=");
    assert!(none.into_books().is_empty());
}

#[test]
fn depth_events_reach_the_book_of_their_symbol() {
    let mut registry = init_static_local_orderbook(&vec!["btcusdt", "ethusdt"]);
    for n in 1u64..=59 {
        assert_eq!(registry.dispatch(WsEvent::DepthEvent(String::from("ethusdt"), diff(n, n))), None);
    }
    assert_eq!(
        registry.dispatch(WsEvent::DepthEvent(String::from("ethusdt"), diff(60, 60))),
        Some(String::from("ethusdt"))
    );
    assert_eq!(registry.lookup("ethusdt").map(|b| b.buffered_len()), Some(60));
    assert_eq!(registry.lookup("btcusdt").map(|b| b.buffered_len()), Some(0));
    assert!(!registry.on_depth_event("btcusdt", diff(1, 1)));
    assert_eq!(registry.lookup("btcusdt").map(|b| b.buffered_len()), Some(1));
}

#[test]
fn other_events_leave_the_books_alone() {
    let mut registry = init_static_local_orderbook(&vec!["btcusdt"]);
    let level = PriceLevel { price: 1, qty: 1 };
    let ticker = Ticker { timestamp: 1, bid: level, ask: level };
    assert_eq!(registry.dispatch(WsEvent::TickerEvent(String::from("xrpusdt"), ticker)), None);
    let answer = ResponseEvent { id: 1, result: None };
    assert_eq!(registry.dispatch(WsEvent::ResponseEvent(answer)), None);
    let full = Orderbook { timestamp: 9, asks: vec![level], bids: vec![] };
    assert_eq!(registry.dispatch(WsEvent::OrderbookEvent(String::from("btcusdt"), full)), None);
    assert_eq!(registry.lookup("btcusdt").map(|b| b.is_ready()), Some(false));
    assert_eq!(registry.lookup("btcusdt").map(|b| b.buffered_len()), Some(0));
}

#[test]
fn queries_go_to_the_book_of_the_symbol() {
    let mut registry = init_static_local_orderbook(&vec!["btcusdt", "ethusdt"]);
    assert_eq!(registry.query_buy_price("BTCUSDT", 4), Some((0, false)));
    assert_eq!(registry.query_sell_price("btcusdt", 4), Some((0, false)));
    assert_eq!(registry.query_buy_price("xrpusdt", 4), None);
    assert_eq!(registry.query_sell_price("xrpusdt", 4), None);
    let asks = vec![PriceLevel { price: 100, qty: 2 }, PriceLevel { price: 101, qty: 3 }];
    let bids = vec![PriceLevel { price: 99, qty: 1 }];
    assert!(!registry.deliver_snapshot("btcusdt", Orderbook { timestamp: 5, asks, bids }));
    assert_eq!(registry.query_buy_price("BtcUsdt", 4), Some((100, true)));
    assert_eq!(LocalOrderBook::query_buy_price(&registry, "BTCUSDT", 5), (100, true));
    assert_eq!(LocalOrderBook::query_sell_price(&registry, "btcusdt", 1), (99, true));
    assert_eq!(LocalOrderBook::query_sell_price(&registry, "btcusdt", 2), (0, true));
    assert_eq!(registry.query_buy_price("ethusdt", 4), Some((0, false)));
    assert!(!registry.deliver_snapshot("btcusdt", Orderbook { timestamp: 6, asks: vec![], bids: vec![] }));
    assert_eq!(registry.query_buy_price("btcusdt", 4), Some((100, true)));
}

#[test]
fn failed_attempt_is_repeated_until_the_last() {
    assert!(retry_again(1, 3, true));
    assert!(retry_again(2, 3, true));
    assert!(!retry_again(3, 3, true));
    assert!(!retry_again(1, 3, false));
    assert!(!retry_again(1, 1, true));
    assert!(!retry_again(1, 0, true));
    assert!(!retry_again(255, 255, true));
    assert!(retry_again(254, 255, true));
}

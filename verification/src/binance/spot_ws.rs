//! The spot websocket client's state and the local order books it feeds.

use std::collections::BTreeMap;
use vstd::prelude::*;
use vstd::string::StringExecFns;
use crate::binance::ladder::{ascending, Ladder, Quote, SNAPSHOT_REQUEST_INTERVAL};
pub use crate::binance::registry::{init_static_local_orderbook, Registry};
use crate::binance::registry::{configured, strs_of};
use crate::binance::side::{
    apply_changes_to, fill, levels, load_levels_into, ordered_events, reversed,
};
use crate::binance::types::{diffs_of, DepthDiff, DepthOrderbookEvent};
use crate::errors::DecodeError;
use crate::models::{Kline, Orderbook, PriceLevel, Ticker, Trade};
use crate::text::{
    before_first, decimal, decimal_digits, holds, holds_name, join, joined, lowercase,
    prefix_before, same_text, texts_of, to_lowercase,
};
use crate::traits::SpotWs;

verus! {

broadcast use {vstd::laws_cmp::group_laws_cmp, vstd::std_specs::btree::group_btree_axioms};

/// One event of the exchange's public streams.
#[derive(Debug)]
pub enum WsEvent {
    /// A full order book of a symbol.
    OrderbookEvent(String, Orderbook),
    /// A depth diff of a symbol.
    DepthEvent(String, DepthOrderbookEvent),
    /// A candlestick of a symbol.
    KlineEvent(String, Kline),
    /// The best bid and ask of a symbol.
    TickerEvent(String, Ticker),
    /// An aggregated trade.
    TradeEvent(Trade),
    /// The exchange's answer to a request made on the connection.
    ResponseEvent(ResponseEvent),
}

/// The exchange's answer to the request with the number `id`.
#[derive(Debug, Clone)]
pub struct ResponseEvent {
    pub id: u64,
    pub result: Option<String>,
}

/// A payload of a combined stream: the data, under the name of the stream
/// it came on.
#[derive(Debug, Clone)]
pub struct StreamMessage<E> {
    pub stream: String,
    pub data: E,
}

impl<E> StreamMessage<E> {
    /// The symbol that the stream belongs to: the part of its name before
    /// the first `@`, or the whole name if it holds none.
    pub fn get_symbol(&self) -> (symbol: String)
        ensures
            symbol@ == before_first(self.stream@, '@'),
    {
        prefix_before(self.stream.as_str(), '@')
    }
}

/// The shape of a payload, which tells how to read it.
#[derive(Clone, Copy, Debug, PartialEq, Eq, Structural)]
pub enum PayloadKind {
    /// The answer to a request.
    Response,
    /// A candlestick on a combined stream.
    StreamKline,
    /// A full order book on a combined stream.
    StreamOrderbook,
    /// An aggregated trade on a combined stream.
    StreamTrade,
    /// A book ticker on a combined stream.
    StreamTicker,
    /// A depth diff on a combined stream.
    StreamDepth,
    /// A candlestick on a single stream.
    Kline,
    /// An aggregated trade on a single stream.
    Trade,
    /// A book ticker on a single stream.
    Ticker,
}

/// The shape of the data of a combined stream, told from the names of its
/// fields and from its event type, the value of its field `e`. The first
/// mark found in this order decides.
pub open spec fn stream_classification(fields: Seq<Seq<char>>, event: Seq<char>) -> Result<
    PayloadKind,
    DecodeError,
> {
    if event == "kline"@ {
        Ok(PayloadKind::StreamKline)
    } else if holds(fields, "lastUpdateId"@) {
        Ok(PayloadKind::StreamOrderbook)
    } else if event == "aggTrade"@ {
        Ok(PayloadKind::StreamTrade)
    } else if holds(fields, "B"@) && holds(fields, "A"@) {
        Ok(PayloadKind::StreamTicker)
    } else if event == "depthUpdate"@ {
        Ok(PayloadKind::StreamDepth)
    } else {
        Err(DecodeError::ChannelNotFound)
    }
}

/// The shape of a payload of a single stream, told from the names of its
/// fields and from its event type, the value of its field `e`. The first
/// mark found in this order decides. A full order book is not taken here,
/// and no depth diff comes this way.
pub open spec fn single_classification(fields: Seq<Seq<char>>, event: Seq<char>) -> Result<
    PayloadKind,
    DecodeError,
> {
    if event == "kline"@ {
        Ok(PayloadKind::Kline)
    } else if holds(fields, "lastUpdateId"@) {
        Err(DecodeError::SingleOrderbookNotSupported)
    } else if event == "aggTrade"@ {
        Ok(PayloadKind::Trade)
    } else if holds(fields, "B"@) && holds(fields, "A"@) {
        Ok(PayloadKind::Ticker)
    } else {
        Err(DecodeError::ChannelNotFound)
    }
}

/// The shape of a payload. `top` holds the names of its fields and
/// `top_event` its event type; `data` holds the names of the fields of the
/// object under its field `data` and `data_event` the event type of that
/// object. An object that is missing has no fields, and an event type that
/// is missing is the empty text.
///
/// A payload with a field `result` is an answer. Any other payload with a
/// field `stream` comes from a combined stream and is told by its data; a
/// payload without is told by itself.
pub open spec fn classification(
    top: Seq<Seq<char>>,
    top_event: Seq<char>,
    data: Seq<Seq<char>>,
    data_event: Seq<char>,
) -> Result<PayloadKind, DecodeError> {
    if holds(top, "result"@) {
        Ok(PayloadKind::Response)
    } else if holds(top, "stream"@) {
        stream_classification(data, data_event)
    } else {
        single_classification(top, top_event)
    }
}

/// Tells the shape of the data of a combined stream.
fn classify_stream(fields: &Vec<String>, event: &str) -> (kind: Result<PayloadKind, DecodeError>)
    ensures
        kind == stream_classification(texts_of(fields@), event@),
{
    if same_text(event, "kline") {
        Ok(PayloadKind::StreamKline)
    } else if holds_name(fields, "lastUpdateId") {
        Ok(PayloadKind::StreamOrderbook)
    } else if same_text(event, "aggTrade") {
        Ok(PayloadKind::StreamTrade)
    } else if holds_name(fields, "B") && holds_name(fields, "A") {
        Ok(PayloadKind::StreamTicker)
    } else if same_text(event, "depthUpdate") {
        Ok(PayloadKind::StreamDepth)
    } else {
        Err(DecodeError::ChannelNotFound)
    }
}

/// Tells the shape of a payload of a single stream.
fn classify_single(fields: &Vec<String>, event: &str) -> (kind: Result<PayloadKind, DecodeError>)
    ensures
        kind == single_classification(texts_of(fields@), event@),
{
    if same_text(event, "kline") {
        Ok(PayloadKind::Kline)
    } else if holds_name(fields, "lastUpdateId") {
        Err(DecodeError::SingleOrderbookNotSupported)
    } else if same_text(event, "aggTrade") {
        Ok(PayloadKind::Trade)
    } else if holds_name(fields, "B") && holds_name(fields, "A") {
        Ok(PayloadKind::Ticker)
    } else {
        Err(DecodeError::ChannelNotFound)
    }
}

/// Tells the shape of a payload from the names of its fields and its event
/// type, and from those of the object under its field `data`.
pub fn classify(top: &Vec<String>, top_event: &str, data: &Vec<String>, data_event: &str) -> (kind:
    Result<PayloadKind, DecodeError>)
    ensures
        kind == classification(texts_of(top@), top_event@, texts_of(data@), data_event@),
{
    if holds_name(top, "result") {
        Ok(PayloadKind::Response)
    } else if holds_name(top, "stream") {
        classify_stream(data, data_event)
    } else {
        classify_single(top, top_event)
    }
}

/// What the client keeps: the address it connects to and the requests it
/// has made, which are made again whenever the connection opens.
pub struct ClientState {
    pub host: Seq<char>,
    pub subs: Seq<Seq<char>>,
}

/// The request that subscribes to `topic` as the request number `id`.
pub open spec fn subscription(topic: Seq<char>, id: nat) -> Seq<char> {
    "{\"method\": \"SUBSCRIBE\", \"params\": [\""@ + topic + "\"], \"id\": "@ + decimal_digits(id)
        + "}"@
}

/// The stream of a symbol's candlesticks of one period.
pub open spec fn kline_topic(symbol: Seq<char>, period: Seq<char>) -> Seq<char> {
    lowercase(symbol) + "@kline_"@ + period
}

/// The stream of a symbol's order book, twenty levels deep.
pub open spec fn orderbook_topic(symbol: Seq<char>) -> Seq<char> {
    lowercase(symbol) + "@depth20"@
}

/// The stream of a symbol's aggregated trades.
pub open spec fn trade_topic(symbol: Seq<char>) -> Seq<char> {
    lowercase(symbol) + "@aggTrade"@
}

/// The stream of a symbol's best bid and ask.
pub open spec fn ticker_topic(symbol: Seq<char>) -> Seq<char> {
    lowercase(symbol) + "@bookTicker"@
}

/// The streams of the symbols' depth diffs, one every 100 ms.
pub open spec fn depth_streams(symbols: Seq<Seq<char>>) -> Seq<Seq<char>> {
    symbols.map_values(|symbol: Seq<char>| lowercase(symbol) + "@depth@100ms"@)
}

/// The address of the combined stream of the symbols' depth diffs.
pub open spec fn depth_stream_url(base: Seq<char>, symbols: Seq<Seq<char>>) -> Seq<char> {
    base + "/stream?streams="@ + joined(depth_streams(symbols), "/"@)
}

impl ClientState {
    /// The state after a subscription to `topic`: the request is added to
    /// those made, numbered from 1.
    pub open spec fn subscribed(self, topic: Seq<char>) -> ClientState {
        ClientState {
            subs: self.subs.push(subscription(topic, self.subs.len() + 1)),
            ..self
        }
    }
}

/// The state of the exchange's websocket client. The connection itself is
/// the caller's: every request recorded here is for the caller to send.
#[derive(Debug, Clone)]
pub struct BinanceWs {
    host: String,
    subs: Vec<String>,
}

impl View for BinanceWs {
    type V = ClientState;

    closed spec fn view(&self) -> ClientState {
        ClientState { host: self.host@, subs: texts_of(self.subs@) }
    }
}

impl BinanceWs {
    /// A client for the address `host` that has made no request.
    pub fn new(host: &str) -> (client: BinanceWs)
        ensures
            client@ == (ClientState { host: host@, subs: Seq::empty() }),
    {
        let client = BinanceWs { host: String::from_str(host), subs: Vec::new() };
        proof {
            assert(client@.subs =~= Seq::<Seq<char>>::empty());
        }
        client
    }

    /// The address the client connects to.
    pub fn host(&self) -> (host: &String)
        ensures
            host@ == self@.host,
    {
        &self.host
    }

    /// The requests made so far, oldest first.
    pub fn subs(&self) -> (subs: &Vec<String>)
        ensures
            texts_of(subs@) == self@.subs,
    {
        &self.subs
    }

    /// Records the subscription to `topic`.
    fn subscribe(&mut self, topic: String)
        ensures
            final(self)@ == old(self)@.subscribed(topic@),
    {
        let id: u128 = self.subs.len() as u128 + 1;
        let mut msg = String::from_str("{\"method\": \"SUBSCRIBE\", \"params\": [\"");
        msg.append(topic.as_str());
        msg.append("\"], \"id\": ");
        msg.append(decimal(id).as_str());
        msg.append("}");
        self.subs.push(msg);
        proof {
            assert(self@.subs =~= old(self)@.subscribed(topic@).subs);
        }
    }

    /// Prepares the local order books of `symbols`: the registry with an
    /// empty book for each, and the client for the combined stream of their
    /// depth diffs at `steams_ws_url`.
    pub fn build_local_orderbook(steams_ws_url: &str, symbols: &Vec<String>) -> (built: (
        Registry,
        BinanceWs,
    ))
        ensures
            built.0@ == configured(texts_of(symbols@)),
            built.1@ == (ClientState {
                host: depth_stream_url(steams_ws_url@, texts_of(symbols@)),
                subs: Seq::empty(),
            }),
    {
        let mut symbols_str: Vec<&str> = Vec::new();
        let mut endpoints: Vec<String> = Vec::new();
        let mut i: usize = 0;
        while i < symbols.len()
            invariant
                i <= symbols.len(),
                strs_of(symbols_str@) == texts_of(symbols@).take(i as int),
                texts_of(endpoints@) == depth_streams(texts_of(symbols@)).take(i as int),
            decreases symbols.len() - i,
        {
            let symbol = symbols[i].as_str();
            let mut endpoint = to_lowercase(symbol);
            endpoint.append("@depth@100ms");
            let ghost names = strs_of(symbols_str@);
            let ghost streams = texts_of(endpoints@);
            symbols_str.push(symbol);
            endpoints.push(endpoint);
            proof {
                assert(strs_of(symbols_str@) =~= names.push(symbol@));
                assert(texts_of(endpoints@) =~= streams.push(endpoint@));
                assert(texts_of(symbols@)[i as int] == symbol@);
                assert(texts_of(symbols@).take(i + 1) =~= texts_of(symbols@).take(i as int).push(
                    symbol@,
                ));
                assert(depth_streams(texts_of(symbols@))[i as int] == endpoint@);
                assert(depth_streams(texts_of(symbols@)).take(i + 1) =~= depth_streams(
                    texts_of(symbols@),
                ).take(i as int).push(endpoint@));
            }
            i += 1;
        }
        proof {
            assert(texts_of(symbols@).take(symbols.len() as int) =~= texts_of(symbols@));
            assert(depth_streams(texts_of(symbols@)).take(symbols.len() as int) =~= depth_streams(
                texts_of(symbols@),
            ));
        }
        let registry = init_static_local_orderbook(&symbols_str);
        let mut url = String::from_str(steams_ws_url);
        url.append("/stream?streams=");
        url.append(join(&endpoints, "/").as_str());
        (registry, BinanceWs::new(url.as_str()))
    }
}

impl SpotWs for BinanceWs {
    /// Subscribes to the candlesticks of `symbol` for `period`.
    fn sub_kline(&mut self, symbol: &str, period: &str)
        ensures
            final(self)@ == old(self)@.subscribed(kline_topic(symbol@, period@)),
    {
        let mut topic = to_lowercase(symbol);
        topic.append("@kline_");
        topic.append(period);
        self.subscribe(topic);
    }

    /// Subscribes to the order book of `symbol`.
    fn sub_orderbook(&mut self, symbol: &str)
        ensures
            final(self)@ == old(self)@.subscribed(orderbook_topic(symbol@)),
    {
        let mut topic = to_lowercase(symbol);
        topic.append("@depth20");
        self.subscribe(topic);
    }

    /// Subscribes to the aggregated trades of `symbol`.
    fn sub_trade(&mut self, symbol: &str)
        ensures
            final(self)@ == old(self)@.subscribed(trade_topic(symbol@)),
    {
        let mut topic = to_lowercase(symbol);
        topic.append("@aggTrade");
        self.subscribe(topic);
    }

    /// Subscribes to the best bid and ask of `symbol`.
    fn sub_ticker(&mut self, symbol: &str)
        ensures
            final(self)@ == old(self)@.subscribed(ticker_topic(symbol@)),
    {
        let mut topic = to_lowercase(symbol);
        topic.append("@bookTicker");
        self.subscribe(topic);
    }

    /// Order updates travel on a private stream, which this client does not
    /// reach: nothing is subscribed.
    fn sub_order_update(&mut self, _symbol: &str)
        ensures
            final(self)@ == old(self)@,
    {
    }
}

/// The order book of one symbol, kept in step with the exchange by depth
/// diffs and snapshots. Its state is the [`Ladder`] that its view gives.
#[derive(Debug, Clone)]
pub struct LocalOrderBook {
    symbol: String,
    asks: BTreeMap<u64, u64>,
    bids: BTreeMap<u64, u64>,
    depth_cache: BTreeMap<u64, DepthOrderbookEvent>,
    rest_update_id: u64,
    ws_final_update_id: u64,
    ready: bool,
}

impl View for LocalOrderBook {
    type V = Ladder;

    closed spec fn view(&self) -> Ladder {
        Ladder {
            symbol: self.symbol@,
            asks: self.asks@,
            bids: self.bids@,
            buffered: diffs_of(self.depth_cache@),
            snapshot_seq: self.rest_update_id,
            last_diff_seq: self.ws_final_update_id,
            ready: self.ready,
        }
    }
}

impl LocalOrderBook {
    /// The book of `symbol` before anything has arrived: empty and not ready.
    pub fn new(symbol: String) -> (book: LocalOrderBook)
        ensures
            book@ == Ladder::empty(symbol@),
    {
        let book = LocalOrderBook {
            symbol,
            asks: BTreeMap::new(),
            bids: BTreeMap::new(),
            depth_cache: BTreeMap::new(),
            rest_update_id: 0,
            ws_final_update_id: 0,
            ready: false,
        };
        proof {
            assert(book@.buffered =~= Map::empty());
        }
        book
    }

    /// The symbol this book belongs to.
    pub fn symbol(&self) -> (symbol: &String)
        ensures
            symbol@ == self@.symbol,
    {
        &self.symbol
    }

    /// Whether the book holds a consistent state that queries may read.
    pub fn is_ready(&self) -> (ready: bool)
        ensures
            ready == self@.ready,
    {
        self.ready
    }

    /// Update id of the snapshot adopted last; 0 when there is none.
    pub fn rest_update_id(&self) -> (id: u64)
        ensures
            id == self@.snapshot_seq,
    {
        self.rest_update_id
    }

    /// Update id that the diff applied last ended with; 0 when there is none.
    pub fn ws_final_update_id(&self) -> (id: u64)
        ensures
            id == self@.last_diff_seq,
    {
        self.ws_final_update_id
    }

    /// The number of diffs kept for the next snapshot.
    pub fn buffered_len(&self) -> (count: usize)
        ensures
            count == self@.buffered.len(),
    {
        proof {
            assert(self@.buffered.dom() =~= self.depth_cache@.dom());
        }
        self.depth_cache.len()
    }

    /// The asks, lowest price first.
    pub fn asks(&self) -> (listed: Vec<PriceLevel>)
        ensures
            listed@ == crate::binance::ladder::levels_of(self@.asks),
    {
        levels(&self.asks)
    }

    /// The bids, lowest price first.
    pub fn bids(&self) -> (listed: Vec<PriceLevel>)
        ensures
            listed@ == crate::binance::ladder::levels_of(self@.bids),
    {
        levels(&self.bids)
    }

    /// Applies one diff that ends with `final_update_id`. A stale diff
    /// changes nothing; a diff that does not follow the last one applied
    /// resets the book and is kept for the next snapshot; any other diff is
    /// merged into the levels. Returns `false` exactly when the book was
    /// reset.
    pub fn update(&mut self, final_update_id: u64, depth_event: &DepthOrderbookEvent) -> (applied:
        bool)
        ensures
            final(self)@ == old(self)@.apply_diff(final_update_id, depth_event@),
            applied == old(self)@.accepts(final_update_id, depth_event@),
    {
        if final_update_id <= self.rest_update_id {
            return true;
        }
        if self.ws_final_update_id != 0 && (depth_event.first_update_id == 0
            || depth_event.first_update_id - 1 != self.ws_final_update_id) {
            self.ready = false;
            self.rest_update_id = 0;
            self.ws_final_update_id = 0;
            self.depth_cache.clear();
            self.depth_cache.insert(final_update_id, depth_event.clone());
            proof {
                assert(self@.buffered =~= Map::<u64, DepthDiff>::empty().insert(
                    final_update_id,
                    depth_event@,
                ));
            }
            return false;
        }
        apply_changes_to(&mut self.asks, &depth_event.asks);
        apply_changes_to(&mut self.bids, &depth_event.bids);
        self.ws_final_update_id = final_update_id;
        true
    }

    /// Takes in one diff from the stream. While the book is not ready the
    /// diff is buffered under its final update id; once it is ready the diff
    /// is applied. Returns whether a snapshot has to be fetched.
    pub fn on_depth_event(&mut self, depth_event: DepthOrderbookEvent) -> (need_snapshot: bool)
        ensures
            final(self)@ == old(self)@.on_depth_event(depth_event@),
            need_snapshot == old(self)@.asks_for_snapshot(depth_event@),
    {
        if !self.ready {
            let ghost diff = depth_event@;
            self.depth_cache.insert(depth_event.final_update_id, depth_event);
            proof {
                assert(self@.buffered =~= old(self)@.buffered.insert(diff.final_update_id, diff));
                assert(self@.buffered.dom() =~= self.depth_cache@.dom());
            }
            let count = self.depth_cache.len();
            count > SNAPSHOT_REQUEST_INTERVAL && count % SNAPSHOT_REQUEST_INTERVAL == 0
        } else {
            !self.update(depth_event.final_update_id, &depth_event)
        }
    }

    /// Adopts a snapshot: its levels replace those of the book, and the
    /// buffered diffs are replayed over it by ascending final update id. The
    /// book ends ready unless the replay met a gap. Returns whether another
    /// snapshot has to be fetched, which is the case after a gap.
    pub fn save_depth_snapshot(&mut self, orderbook: Orderbook) -> (need_snapshot: bool)
        ensures
            final(self)@ == old(self)@.adopt(orderbook@),
            need_snapshot == !final(self)@.ready,
    {
        let mut cache: BTreeMap<u64, DepthOrderbookEvent> = BTreeMap::new();
        std::mem::swap(&mut self.depth_cache, &mut cache);
        let pending = ordered_events(&cache);
        self.asks.clear();
        load_levels_into(&mut self.asks, &orderbook.asks);
        self.bids.clear();
        load_levels_into(&mut self.bids, &orderbook.bids);
        self.rest_update_id = orderbook.timestamp;
        self.ws_final_update_id = 0;
        let ghost diffs = ascending(old(self)@.buffered);
        proof {
            assert(diffs == pending@.map_values(
                |entry: (u64, &DepthOrderbookEvent)| (entry.0, entry.1@),
            ));
            assert(self@.buffered =~= Map::empty());
            assert(self@ == old(self)@.rebased(orderbook@));
            assert(diffs.skip(0) =~= diffs);
        }
        let mut i: usize = 0;
        while i < pending.len()
            invariant
                i <= pending.len(),
                diffs.len() == pending.len(),
                forall|j: int|
                    0 <= j < pending.len() ==> (#[trigger] diffs[j]) == (
                        pending@[j].0,
                        pending@[j].1@,
                    ),
                old(self)@.adopt(orderbook@) == self@.replay(diffs.skip(i as int)),
            decreases pending.len() - i,
        {
            let entry = &pending[i];
            proof {
                assert(diffs.skip(i as int)[0] == diffs[i as int]);
                assert(diffs.skip(i as int).drop_first() =~= diffs.skip(i + 1));
            }
            if !self.update(entry.0, entry.1) {
                return true;
            }
            i += 1;
        }
        self.ready = true;
        false
    }

    /// Takes in a snapshot that was fetched on request: it is adopted while
    /// the book holds no snapshot, and dropped if one has been adopted in the
    /// meantime. Returns whether another snapshot has to be fetched.
    pub fn deliver_snapshot(&mut self, orderbook: Orderbook) -> (need_snapshot: bool)
        ensures
            final(self)@ == old(self)@.deliver(orderbook@),
            need_snapshot == (old(self)@.snapshot_seq == 0 && !final(self)@.ready),
    {
        if self.rest_update_id == 0 {
            self.save_depth_snapshot(orderbook)
        } else {
            false
        }
    }

    /// The levels and the buffered diffs of a book are finitely many.
    pub proof fn lemma_view_is_finite(&self)
        ensures
            self@.asks.dom().finite(),
            self@.bids.dom().finite(),
            self@.buffered.dom().finite(),
    {
        assert(self@.buffered.dom() =~= self.depth_cache@.dom());
    }

    /// The answer to a buy query for `symbol`, which is looked up in
    /// lowercase among the books of `registry`: the average price of the
    /// fill and whether the book was ready. The symbol has to be configured.
    pub fn query_buy_price(registry: &Registry, symbol: &str, amount: u64) -> (answer: (u128, bool))
        requires
            registry@.contains_key(lowercase(symbol@)),
        ensures
            answer == registry@[lowercase(symbol@)].buy_quote(amount).buy_price(),
    {
        match registry.lookup(symbol) {
            Some(book) => book.quote_buy(amount).buy_price(),
            None => (0, false),
        }
    }

    /// The answer to a sell query for `symbol`, which is looked up in
    /// lowercase among the books of `registry`: the average price of the
    /// fill and whether the book was ready. The symbol has to be configured.
    pub fn query_sell_price(registry: &Registry, symbol: &str, amount: u64) -> (answer: (
        u128,
        bool,
    ))
        requires
            registry@.contains_key(lowercase(symbol@)),
        ensures
            answer == registry@[lowercase(symbol@)].sell_quote(amount).sell_price(),
    {
        match registry.lookup(symbol) {
            Some(book) => book.quote_sell(amount).sell_price(),
            None => (0, false),
        }
    }

    /// The quote for buying `amount`: asks are consumed from the lowest
    /// price up until the amount is filled.
    pub fn quote_buy(&self, amount: u64) -> (quote: Quote)
        ensures
            quote == self@.buy_quote(amount),
    {
        if !self.ready {
            return Quote::NotReady;
        }
        let best_first = levels(&self.asks);
        quote_from(&best_first, amount)
    }

    /// The quote for selling `amount`: bids are consumed from the highest
    /// price down until the amount is filled.
    pub fn quote_sell(&self, amount: u64) -> (quote: Quote)
        ensures
            quote == self@.sell_quote(amount),
    {
        if !self.ready {
            return Quote::NotReady;
        }
        let lowest_first = levels(&self.bids);
        let best_first = reversed(&lowest_first);
        quote_from(&best_first, amount)
    }
}

/// The quote for `amount` against the levels of a ready book, best price
/// first.
fn quote_from(best_first: &Vec<PriceLevel>, amount: u64) -> (quote: Quote)
    ensures
        quote == crate::binance::ladder::quote_of(true, best_first@, amount),
{
    match fill(best_first, amount) {
        None => Quote::Unfillable,
        Some(cost) => {
            if amount == 0 {
                Quote::Filled { cost, average: 0 }
            } else {
                proof {
                    assert(cost as int / amount as int <= u64::MAX) by (nonlinear_arith)
                        requires
                            0 <= cost <= amount * u64::MAX,
                            amount > 0,
                    ;
                }
                let average = cost / (amount as u128);
                Quote::Filled { cost, average: average as u64 }
            }
        },
    }
}

} // verus!

//! The books of all configured symbols, found by symbol.

use vstd::prelude::*;
use crate::binance::ladder::Ladder;
use crate::binance::spot_ws::{LocalOrderBook, WsEvent};
use crate::binance::types::DepthOrderbookEvent;
use crate::models::Orderbook;
use crate::text::{lowercase, to_lowercase};

verus! {

/// One book for each configured symbol, no two for the same. The symbols are
/// fixed when the registry is made; afterwards only the books change. Its
/// view maps each symbol to the state of its book.
pub struct Registry {
    books: Vec<LocalOrderBook>,
}

/// No two of the books have the same symbol.
spec fn distinct(books: Seq<Ladder>) -> bool {
    forall|i: int, j: int|
        0 <= i < j < books.len() ==> (#[trigger] books[i]).symbol != (#[trigger] books[j]).symbol
}

/// What a list of string slices holds.
pub open spec fn strs_of(strings: Seq<&str>) -> Seq<Seq<char>> {
    strings.map_values(|s: &str| s@)
}

/// The books that a registry configured for `symbols` starts with: an empty
/// one under the lowercase form of each symbol.
pub open spec fn configured(symbols: Seq<Seq<char>>) -> Map<Seq<char>, Ladder> {
    Map::new(
        |key: Seq<char>| exists|i: int| 0 <= i < symbols.len() && lowercase(symbols[i]) == key,
        |key: Seq<char>| Ladder::empty(key),
    )
}

/// `i` is the first position of a book of `key`.
spec fn first_of(books: Seq<Ladder>, key: Seq<char>, i: int) -> bool {
    &&& 0 <= i < books.len()
    &&& books[i].symbol == key
    &&& forall|k: int| 0 <= k < i ==> (#[trigger] books[k]).symbol != key
}

/// The books by symbol: under each symbol the first book that has it.
spec fn by_symbol(books: Seq<Ladder>) -> Map<Seq<char>, Ladder> {
    Map::new(
        |key: Seq<char>| exists|i: int| first_of(books, key, i),
        |key: Seq<char>| books[choose|i: int| first_of(books, key, i)],
    )
}

/// The first book of a symbol is the one found under it.
proof fn lemma_first_of(books: Seq<Ladder>, key: Seq<char>, i: int)
    requires
        first_of(books, key, i),
    ensures
        by_symbol(books).contains_key(key),
        by_symbol(books)[key] == books[i],
{
    let j = choose|j: int| first_of(books, key, j);
    if j < i {
        assert(books[j].symbol != key);
    } else if i < j {
        assert(books[i].symbol != key);
    }
}

/// A symbol that no book has is not found.
proof fn lemma_absent(books: Seq<Ladder>, key: Seq<char>)
    requires
        forall|k: int| 0 <= k < books.len() ==> (#[trigger] books[k]).symbol != key,
    ensures
        !by_symbol(books).contains_key(key),
{
    if by_symbol(books).contains_key(key) {
        let j = choose|j: int| first_of(books, key, j);
        assert(books[j].symbol != key);
    }
}

/// A symbol that is found has a first book.
proof fn lemma_found(books: Seq<Ladder>, key: Seq<char>) -> (i: int)
    requires
        by_symbol(books).contains_key(key),
    ensures
        first_of(books, key, i),
        by_symbol(books)[key] == books[i],
{
    choose|i: int| first_of(books, key, i)
}

/// Two lists of books are the same but at place `i`, where each of them has
/// a book of `symbol` or ends.
spec fn same_but_at(a: Seq<Ladder>, b: Seq<Ladder>, i: int, symbol: Seq<char>) -> bool {
    &&& 0 <= i
    &&& (a.len() == b.len() && i < a.len()) || (a.len() == i && b.len() == i + 1) || (b.len() == i
        && a.len() == i + 1)
    &&& forall|k: int|
        #![trigger a[k]]
        #![trigger b[k]]
        0 <= k < a.len() && k < b.len() && k != i ==> a[k] == b[k]
    &&& i < a.len() ==> a[i].symbol == symbol
    &&& i < b.len() ==> b[i].symbol == symbol
}

/// What one of two such lists finds under another symbol, the other finds
/// too.
proof fn lemma_same_elsewhere(
    a: Seq<Ladder>,
    b: Seq<Ladder>,
    i: int,
    symbol: Seq<char>,
    key: Seq<char>,
)
    requires
        same_but_at(a, b, i, symbol),
        key != symbol,
        by_symbol(a).contains_key(key),
    ensures
        by_symbol(b).contains_key(key),
        by_symbol(b)[key] == by_symbol(a)[key],
{
    let j = lemma_found(a, key);
    assert(j != i);
    assert(j < b.len());
    assert(b[j] == a[j]);
    assert forall|k: int| 0 <= k < j implies (#[trigger] b[k]).symbol != key by {
        if k != i {
            assert(a[k].symbol != key);
        }
    }
    lemma_first_of(b, key, j);
}

/// A book set at place `i`, over the first book of its symbol or behind
/// books that all have other symbols, is found under its symbol, and nothing
/// else changes.
proof fn lemma_set_at(books: Seq<Ladder>, after: Seq<Ladder>, i: int, next: Ladder)
    requires
        same_but_at(books, after, i, next.symbol),
        i < after.len(),
        after[i] == next,
        forall|k: int| 0 <= k < i ==> (#[trigger] books[k]).symbol != next.symbol,
    ensures
        by_symbol(after) == by_symbol(books).insert(next.symbol, next),
{
    let expected = by_symbol(books).insert(next.symbol, next);
    assert forall|k: int| 0 <= k < i implies (#[trigger] after[k]).symbol != next.symbol by {
        assert(books[k].symbol != next.symbol);
    }
    lemma_first_of(after, next.symbol, i);
    assert forall|key: Seq<char>|
        (#[trigger] by_symbol(after).dom().contains(key)) == expected.dom().contains(key) by {
        if key != next.symbol {
            if by_symbol(after).contains_key(key) {
                lemma_same_elsewhere(after, books, i, next.symbol, key);
            }
            if by_symbol(books).contains_key(key) {
                lemma_same_elsewhere(books, after, i, next.symbol, key);
            }
        }
    }
    assert forall|key: Seq<char>| by_symbol(after).dom().contains(key) implies (
    #[trigger] by_symbol(after)[key]) == expected[key] by {
        if key != next.symbol {
            lemma_same_elsewhere(after, books, i, next.symbol, key);
        }
    }
    assert(by_symbol(after) =~= expected);
}

impl View for Registry {
    type V = Map<Seq<char>, Ladder>;

    closed spec fn view(&self) -> Map<Seq<char>, Ladder> {
        by_symbol(self.states())
    }
}

impl Registry {
    /// The states of the books, in the order they are kept.
    spec fn states(&self) -> Seq<Ladder> {
        self.books@.map_values(|book: LocalOrderBook| book@)
    }

    /// Every symbol has one book.
    #[verifier::type_invariant]
    spec fn one_book_each(&self) -> bool {
        distinct(self.states())
    }

    /// A registry without books.
    pub fn new() -> (registry: Registry)
        ensures
            registry@ == Map::<Seq<char>, Ladder>::empty(),
    {
        let registry = Registry { books: Vec::new() };
        proof {
            assert(registry@ =~= Map::<Seq<char>, Ladder>::empty());
        }
        registry
    }

    /// Takes the books out and leaves the registry without any.
    fn take_books(&mut self) -> (books: Vec<LocalOrderBook>)
        ensures
            books == old(self).books,
    {
        let mut taken = Registry::new();
        std::mem::swap(self, &mut taken);
        taken.books
    }

    /// Where the book of `key` stands, if there is one.
    fn position(&self, key: &String) -> (found: Option<usize>)
        ensures
            match found {
                Some(i) => first_of(self.states(), key@, i as int) && self@.contains_key(key@)
                    && self@[key@] == self.books@[i as int]@,
                None => !self@.contains_key(key@) && forall|k: int|
                    0 <= k < self.books@.len() ==> (#[trigger] self.states()[k]).symbol != key@,
            },
    {
        let mut i: usize = 0;
        while i < self.books.len()
            invariant
                i <= self.books@.len(),
                forall|k: int| 0 <= k < i ==> (#[trigger] self.states()[k]).symbol != key@,
            decreases self.books@.len() - i,
        {
            if *self.books[i].symbol() == *key {
                proof {
                    lemma_first_of(self.states(), key@, i as int);
                }
                return Some(i);
            }
            i += 1;
        }
        proof {
            lemma_absent(self.states(), key@);
        }
        None
    }

    /// Adds an empty book for `key` unless the registry has one.
    fn add(&mut self, key: String)
        ensures
            final(self)@ == (if old(self)@.contains_key(key@) {
                old(self)@
            } else {
                old(self)@.insert(key@, Ladder::empty(key@))
            }),
    {
        if self.position(&key).is_none() {
            let ghost before = self.states();
            let book = LocalOrderBook::new(key);
            proof {
                use_type_invariant(&*self);
            }
            let mut books = self.take_books();
            books.push(book);
            proof {
                assert(books@.map_values(|book: LocalOrderBook| book@) =~= before.push(book@));
                assert(distinct(before.push(book@)));
                lemma_set_at(before, before.push(book@), before.len() as int, book@);
            }
            *self = Registry { books };
        }
    }

    /// Whether the registry has a book under exactly `symbol`.
    pub fn contains(&self, symbol: &str) -> (found: bool)
        ensures
            found == self@.contains_key(symbol@),
    {
        let key = symbol.to_owned();
        self.position(&key).is_some()
    }

    /// Every book is found under its own symbol.
    pub proof fn lemma_keys_are_symbols(&self)
        ensures
            forall|key: Seq<char>| #[trigger] self@.contains_key(key) ==> self@[key].symbol == key,
    {
        assert forall|key: Seq<char>| #[trigger] self@.contains_key(key) implies self@[key].symbol
            == key by {
            let i = lemma_found(self.states(), key);
        }
    }

    /// The book of `symbol`, which is looked up in lowercase; `None` when
    /// the symbol is not configured.
    pub fn lookup(&self, symbol: &str) -> (found: Option<&LocalOrderBook>)
        ensures
            match found {
                Some(book) => self@.contains_key(lowercase(symbol@)) && book@ == self@[lowercase(
                    symbol@,
                )],
                None => !self@.contains_key(lowercase(symbol@)),
            },
    {
        let key = to_lowercase(symbol);
        match self.position(&key) {
            Some(i) => Some(&self.books[i]),
            None => None,
        }
    }

    /// Routes one diff of `symbol`'s stream to the book of that symbol.
    /// Returns whether a snapshot of the symbol has to be fetched.
    pub fn on_depth_event(&mut self, symbol: &str, depth_event: DepthOrderbookEvent) -> (need_snapshot:
        bool)
        requires
            old(self)@.contains_key(symbol@),
        ensures
            final(self)@ == old(self)@.insert(
                symbol@,
                old(self)@[symbol@].on_depth_event(depth_event@),
            ),
            need_snapshot == old(self)@[symbol@].asks_for_snapshot(depth_event@),
    {
        let key = symbol.to_owned();
        match self.position(&key) {
            Some(i) => {
                let ghost before = self.states();
                let ghost next = before[i as int].on_depth_event(depth_event@);
                proof {
                    use_type_invariant(&*self);
                }
                let mut books = self.take_books();
                let need_snapshot = books[i].on_depth_event(depth_event);
                proof {
                    lemma_changed_in_place(before, books@, i as int, next);
                    lemma_set_at(before, before.update(i as int, next), i as int, next);
                }
                *self = Registry { books };
                need_snapshot
            },
            None => false,
        }
    }

    /// Hands a fetched snapshot of `symbol` to the book of that symbol, which
    /// adopts it only while it holds none. Returns whether another snapshot
    /// has to be fetched.
    pub fn deliver_snapshot(&mut self, symbol: &str, orderbook: Orderbook) -> (need_snapshot: bool)
        requires
            old(self)@.contains_key(symbol@),
        ensures
            final(self)@ == old(self)@.insert(symbol@, old(self)@[symbol@].deliver(orderbook@)),
            need_snapshot == (old(self)@[symbol@].snapshot_seq == 0
                && !final(self)@[symbol@].ready),
    {
        let key = symbol.to_owned();
        match self.position(&key) {
            Some(i) => {
                let ghost before = self.states();
                let ghost next = before[i as int].deliver(orderbook@);
                proof {
                    use_type_invariant(&*self);
                    lemma_keeps_symbol(before[i as int], orderbook@);
                }
                let mut books = self.take_books();
                let need_snapshot = books[i].deliver_snapshot(orderbook);
                proof {
                    lemma_changed_in_place(before, books@, i as int, next);
                    lemma_set_at(before, before.update(i as int, next), i as int, next);
                }
                *self = Registry { books };
                need_snapshot
            },
            None => false,
        }
    }

    /// Takes in one event of the stream: a depth diff goes to the book of
    /// its symbol, every other event leaves the books as they are. Returns
    /// the symbol of which a snapshot has to be fetched, if any.
    pub fn dispatch(&mut self, event: WsEvent) -> (fetch: Option<String>)
        requires
            event matches WsEvent::DepthEvent(symbol, _) ==> old(self)@.contains_key(symbol@),
        ensures
            match event {
                WsEvent::DepthEvent(symbol, depth_event) => {
                    &&& final(self)@ == old(self)@.insert(
                        symbol@,
                        old(self)@[symbol@].on_depth_event(depth_event@),
                    )
                    &&& match fetch {
                        Some(wanted) => wanted@ == symbol@ && old(self)@[symbol@].asks_for_snapshot(
                            depth_event@,
                        ),
                        None => !old(self)@[symbol@].asks_for_snapshot(depth_event@),
                    }
                },
                _ => final(self)@ == old(self)@ && fetch is None,
            },
    {
        match event {
            WsEvent::DepthEvent(symbol, depth_event) => {
                if self.on_depth_event(symbol.as_str(), depth_event) {
                    Some(symbol)
                } else {
                    None
                }
            },
            _ => None,
        }
    }

    /// The answer to a buy query for `symbol`, which is looked up in
    /// lowercase; `None` when the symbol is not configured.
    pub fn query_buy_price(&self, symbol: &str, amount: u64) -> (answer: Option<(u128, bool)>)
        ensures
            answer == (if self@.contains_key(lowercase(symbol@)) {
                Some(self@[lowercase(symbol@)].buy_quote(amount).buy_price())
            } else {
                None
            }),
    {
        match self.lookup(symbol) {
            Some(_) => Some(LocalOrderBook::query_buy_price(self, symbol, amount)),
            None => None,
        }
    }

    /// The answer to a sell query for `symbol`, which is looked up in
    /// lowercase; `None` when the symbol is not configured.
    pub fn query_sell_price(&self, symbol: &str, amount: u64) -> (answer: Option<(u128, bool)>)
        ensures
            answer == (if self@.contains_key(lowercase(symbol@)) {
                Some(self@[lowercase(symbol@)].sell_quote(amount).sell_price())
            } else {
                None
            }),
    {
        match self.lookup(symbol) {
            Some(_) => Some(LocalOrderBook::query_sell_price(self, symbol, amount)),
            None => None,
        }
    }

    /// The levels and the buffered diffs of every book are finitely many.
    pub proof fn lemma_views_are_finite(&self)
        ensures
            forall|key: Seq<char>| #[trigger]
                self@.contains_key(key) ==> self@[key].asks.dom().finite()
                    && self@[key].bids.dom().finite() && self@[key].buffered.dom().finite(),
    {
        assert forall|key: Seq<char>| #[trigger] self@.contains_key(key) implies self@[key].asks.dom().finite()
            && self@[key].bids.dom().finite() && self@[key].buffered.dom().finite() by {
            let i = lemma_found(self.states(), key);
            self.books@[i].lemma_view_is_finite();
        }
    }

    /// Gives up the registry for its books: one for each symbol, each in the
    /// state that the registry had under its symbol.
    pub fn into_books(self) -> (books: Vec<LocalOrderBook>)
        ensures
            forall|i: int|
                0 <= i < books@.len() ==> self@.contains_key((#[trigger] books@[i])@.symbol)
                    && self@[books@[i]@.symbol] == books@[i]@,
            forall|i: int, j: int|
                0 <= i < j < books@.len() ==> (#[trigger] books@[i])@.symbol != (
                #[trigger] books@[j])@.symbol,
            forall|key: Seq<char>|
                self@.contains_key(key) ==> exists|i: int|
                    0 <= i < books@.len() && (#[trigger] books@[i])@ == self@[key],
    {
        proof {
            use_type_invariant(&self);
            let states = self.states();
            assert forall|i: int| 0 <= i < states.len() implies self@.contains_key(
                (#[trigger] self.books@[i])@.symbol,
            ) && self@[self.books@[i]@.symbol] == self.books@[i]@ by {
                assert forall|k: int| 0 <= k < i implies (#[trigger] states[k]).symbol
                    != states[i].symbol by {}
                lemma_first_of(states, states[i].symbol, i);
            }
            assert forall|i: int, j: int| 0 <= i < j < states.len() implies (
            #[trigger] self.books@[i])@.symbol != (#[trigger] self.books@[j])@.symbol by {
                assert(states[i].symbol != states[j].symbol);
            }
            assert forall|key: Seq<char>| self@.contains_key(key) implies exists|i: int|
                0 <= i < self.books@.len() && (#[trigger] self.books@[i])@ == self@[key] by {
                let i = lemma_found(states, key);
                assert(self.books@[i]@ == self@[key]);
            }
        }
        self.books
    }
}

/// Books of which one has changed its state, but not its symbol, still are
/// one for each symbol.
proof fn lemma_changed_in_place(
    before: Seq<Ladder>,
    books: Seq<LocalOrderBook>,
    i: int,
    next: Ladder,
)
    requires
        0 <= i < before.len(),
        distinct(before),
        next.symbol == before[i].symbol,
        books.len() == before.len(),
        books[i]@ == next,
        forall|k: int| 0 <= k < books.len() && k != i ==> (#[trigger] books[k])@ == before[k],
    ensures
        books.map_values(|book: LocalOrderBook| book@) == before.update(i, next),
        distinct(before.update(i, next)),
{
    let after = before.update(i, next);
    assert(books.map_values(|book: LocalOrderBook| book@) =~= after);
    assert forall|a: int, b: int| 0 <= a < b < after.len() implies (#[trigger] after[a]).symbol
        != (#[trigger] after[b]).symbol by {
        assert(before[a].symbol != before[b].symbol);
    }
}

/// Delivering a snapshot leaves a ladder its symbol.
proof fn lemma_keeps_symbol(ladder: Ladder, snapshot: crate::models::OrderbookView)
    ensures
        ladder.deliver(snapshot).symbol == ladder.symbol,
{
    crate::binance::ladder::lemma_replay_keeps_symbol(
        ladder.rebased(snapshot),
        crate::binance::ladder::ascending(ladder.buffered),
    );
}

/// Makes the registry for `symbols`: an empty book under the lowercase form
/// of each.
pub fn init_static_local_orderbook(symbols: &Vec<&str>) -> (registry: Registry)
    ensures
        registry@ == configured(strs_of(symbols@)),
{
    let mut registry = Registry::new();
    let mut i: usize = 0;
    while i < symbols.len()
        invariant
            i <= symbols.len(),
            registry@ == configured(strs_of(symbols@).take(i as int)),
        decreases symbols.len() - i,
    {
        let key = to_lowercase(symbols[i]);
        let ghost before = registry@;
        registry.add(key);
        proof {
            let done = strs_of(symbols@).take(i as int);
            let next = strs_of(symbols@).take(i + 1);
            assert(next[i as int] == symbols@[i as int]@);
            assert forall|k: Seq<char>| configured(next).contains_key(k) implies registry@.contains_key(
                k,
            ) by {
                let j = choose|j: int| 0 <= j < next.len() && lowercase(next[j]) == k;
                if j < i {
                    assert(done[j] == next[j]);
                    assert(configured(done).contains_key(k));
                }
            }
            assert forall|k: Seq<char>| registry@.contains_key(k) implies configured(
                next,
            ).contains_key(k) by {
                if before.contains_key(k) {
                    let j = choose|j: int| 0 <= j < done.len() && lowercase(done[j]) == k;
                    assert(next[j] == done[j]);
                } else {
                    assert(lowercase(next[i as int]) == k);
                }
            }
            assert(registry@ =~= configured(next));
        }
        i += 1;
    }
    proof {
        assert(strs_of(symbols@).take(symbols.len() as int) =~= strs_of(symbols@));
        assert(registry@ =~= configured(strs_of(symbols@)));
    }
    registry
}

} // verus!

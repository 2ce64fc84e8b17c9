use vstd::prelude::*;

use crate::order_book::{copy_levels, Level, OrderBook, OrderBookView, DEPTH};
use crate::ranking::{first_levels, is_top, lemma_prefix_is_top, min_nat, rank_levels, Side};
use crate::text::same_text;

verus! {

/// Marks a service whose exchange feeds are running.
#[derive(Clone, Copy)]
pub struct Connected;

/// Marks a service whose exchange feeds have not been started.
#[derive(Clone, Copy)]
pub struct NotConnected;

/// The latest book of each exchange, at most one per exchange name.
pub struct ExchangeStore {
    books: Vec<OrderBook>,
}

/// The position of the book for `name` in `s`, or -1 when there is none.
pub open spec fn book_index(s: Seq<OrderBookView>, name: Seq<char>) -> int
    decreases s.len(),
{
    if s.len() == 0 {
        -1
    } else if s.last().exchange == name {
        s.len() - 1
    } else {
        book_index(s.drop_last(), name)
    }
}

/// The store `s` after `b` arrives: `b` takes the place of the book of the
/// same exchange, or joins the store when that exchange had none.
pub open spec fn apply_book(s: Seq<OrderBookView>, b: OrderBookView) -> Seq<OrderBookView> {
    let i = book_index(s, b.exchange);
    if i >= 0 {
        s.update(i, b)
    } else {
        s.push(b)
    }
}

/// No two books of `s` belong to the same exchange.
pub open spec fn names_unique(s: Seq<OrderBookView>) -> bool {
    forall|i: int, j: int| 0 <= i < j < s.len() ==> s[i].exchange != s[j].exchange
}

pub open spec fn side_levels(b: OrderBookView, side: Side) -> Seq<Level> {
    match side {
        Side::Bid => b.bids,
        Side::Ask => b.asks,
    }
}

/// The levels of one side of every book of `s`, book after book.
pub open spec fn pooled(s: Seq<OrderBookView>, side: Side) -> Seq<Level>
    decreases s.len(),
{
    if s.len() == 0 {
        Seq::empty()
    } else {
        pooled(s.drop_last(), side) + side_levels(s.last(), side)
    }
}

/// The best ask price less the best bid price, or `None` when a side is empty.
pub open spec fn spread_of(bids: Seq<Level>, asks: Seq<Level>) -> Option<i128> {
    if bids.len() > 0 && asks.len() > 0 {
        Some((asks[0].price - bids[0].price) as i128)
    } else {
        None
    }
}

impl View for ExchangeStore {
    type V = Seq<OrderBookView>;

    closed spec fn view(&self) -> Seq<OrderBookView> {
        self.books@.map_values(|b: OrderBook| b@)
    }
}

impl ExchangeStore {
    pub open spec fn wf(&self) -> bool {
        names_unique(self@)
    }

    pub fn new() -> (r: Self)
        ensures
            r@ == Seq::<OrderBookView>::empty(),
            r.wf(),
    {
        let r = ExchangeStore { books: Vec::new() };
        assert(r@ =~= Seq::<OrderBookView>::empty());
        r
    }

    /// How many exchanges have a book in the store.
    pub fn len(&self) -> (r: usize)
        ensures
            r == self@.len(),
    {
        self.books.len()
    }
}

/// Where `book_index` points: the last book with that name.
pub proof fn lemma_book_index(s: Seq<OrderBookView>, name: Seq<char>)
    ensures
        -1 <= book_index(s, name) < s.len(),
        book_index(s, name) >= 0 ==> s[book_index(s, name)].exchange == name,
        forall|j: int| book_index(s, name) < j < s.len() ==> s[j].exchange != name,
    decreases s.len(),
{
    if s.len() > 0 {
        let t = s.drop_last();
        lemma_book_index(t, name);
        assert forall|j: int| book_index(s, name) < j < s.len() implies s[j].exchange != name by {
            if j < s.len() - 1 {
                assert(t[j] == s[j]);
            }
        }
    }
}

/// A position holding `name` with no later one is where `book_index` points.
proof fn lemma_book_index_at(s: Seq<OrderBookView>, name: Seq<char>, i: int)
    requires
        -1 <= i < s.len(),
        i >= 0 ==> s[i].exchange == name,
        forall|j: int| i < j < s.len() ==> s[j].exchange != name,
    ensures
        book_index(s, name) == i,
    decreases s.len(),
{
    if s.len() > 0 && i < s.len() - 1 {
        lemma_book_index_at(s.drop_last(), name, i);
    }
}

/// Puts `order_book` in the store in place of the book of the same exchange,
/// or adds it when that exchange has none yet.
pub fn update_exchange(exchanges: &mut ExchangeStore, order_book: OrderBook)
    requires
        old(exchanges).wf(),
    ensures
        final(exchanges)@ == apply_book(old(exchanges)@, order_book@),
        final(exchanges).wf(),
{
    let ghost s = exchanges@;
    let ghost b = order_book@;
    proof {
        lemma_book_index(s, b.exchange);
    }
    let name = order_book.get_exchange_name();
    let mut i: usize = exchanges.books.len();
    while i > 0 && !same_text(exchanges.books[i - 1].exchange, name)
        invariant
            exchanges@ == s,
            name@ == b.exchange,
            i <= s.len(),
            forall|j: int| i <= j < s.len() ==> s[j].exchange != b.exchange,
        decreases i,
    {
        i = i - 1;
    }
    if i > 0 {
        proof {
            lemma_book_index_at(s, b.exchange, i - 1);
        }
        exchanges.books.remove(i - 1);
        exchanges.books.insert(i - 1, order_book);
        assert(exchanges@ =~= s.update(i - 1, b));
    } else {
        proof {
            lemma_book_index_at(s, b.exchange, -1);
        }
        exchanges.books.push(order_book);
        assert(exchanges@ =~= s.push(b));
    }
}

/// One side of every book in the store, book after book.
fn pool_side(exchanges: &ExchangeStore, side: Side) -> (r: Vec<Level>)
    ensures
        r@ == pooled(exchanges@, side),
{
    let mut out: Vec<Level> = Vec::new();
    let mut i: usize = 0;
    while i < exchanges.books.len()
        invariant
            i <= exchanges@.len(),
            out@ == pooled(exchanges@.take(i as int), side),
        decreases exchanges@.len() - i,
    {
        let book = &exchanges.books[i];
        let mut levels = match side {
            Side::Bid => copy_levels(&book.bids),
            Side::Ask => copy_levels(&book.asks),
        };
        let ghost before = out@;
        out.append(&mut levels);
        proof {
            let t = exchanges@.take(i + 1);
            assert(t.drop_last() =~= exchanges@.take(i as int));
            assert(t.last() == exchanges@[i as int]);
            assert(out@ == before + side_levels(exchanges@[i as int], side));
        }
        i = i + 1;
    }
    assert(exchanges@.take(i as int) =~= exchanges@);
    out
}

/// The first `DEPTH` levels of `levels`.
pub fn get_ten_first_levels(levels: Vec<Level>) -> (r: Vec<Level>)
    ensures
        r@ == levels@.take(min_nat(DEPTH as nat, levels@.len()) as int),
{
    first_levels(&levels, DEPTH)
}

/// The best `DEPTH` bids and the best `DEPTH` asks over every book in the
/// store, best first.
pub fn merge_levels(exchanges: &ExchangeStore) -> (r: (Vec<Level>, Vec<Level>))
    ensures
        is_top(Side::Bid, pooled(exchanges@, Side::Bid), r.0@, DEPTH as nat),
        is_top(Side::Ask, pooled(exchanges@, Side::Ask), r.1@, DEPTH as nat),
{
    let bids = pool_side(exchanges, Side::Bid);
    let asks = pool_side(exchanges, Side::Ask);
    let ranked_bids = rank_levels(Side::Bid, &bids);
    let ranked_asks = rank_levels(Side::Ask, &asks);
    proof {
        lemma_prefix_is_top(Side::Bid, bids@, ranked_bids@, DEPTH as nat);
        lemma_prefix_is_top(Side::Ask, asks@, ranked_asks@, DEPTH as nat);
    }
    (get_ten_first_levels(ranked_bids), get_ten_first_levels(ranked_asks))
}

/// The merged view of every exchange: the best `DEPTH` levels of each side
/// and the spread between the best ask and the best bid. Prices and the
/// spread are in units of 10^-8.
#[derive(Clone, Debug)]
pub struct Summary {
    pub spread: Option<i128>,
    pub bids: Vec<Level>,
    pub asks: Vec<Level>,
}

/// The summary of the store's current books.
pub fn get_summary(exchanges: &ExchangeStore) -> (r: Summary)
    ensures
        is_top(Side::Bid, pooled(exchanges@, Side::Bid), r.bids@, DEPTH as nat),
        is_top(Side::Ask, pooled(exchanges@, Side::Ask), r.asks@, DEPTH as nat),
        r.spread == spread_of(r.bids@, r.asks@),
{
    let (bids, asks) = merge_levels(exchanges);
    let spread = if bids.len() > 0 && asks.len() > 0 {
        Some(asks[0].price as i128 - bids[0].price as i128)
    } else {
        None
    };
    Summary { spread, bids, asks }
}

/// One step of aggregation: puts `order_book` in the store and returns the
/// summary of the store as it now stands.
pub fn aggregate(exchanges: &mut ExchangeStore, order_book: OrderBook) -> (r: Summary)
    requires
        old(exchanges).wf(),
    ensures
        final(exchanges)@ == apply_book(old(exchanges)@, order_book@),
        final(exchanges).wf(),
        is_top(Side::Bid, pooled(final(exchanges)@, Side::Bid), r.bids@, DEPTH as nat),
        is_top(Side::Ask, pooled(final(exchanges)@, Side::Ask), r.asks@, DEPTH as nat),
        r.spread == spread_of(r.bids@, r.asks@),
{
    update_exchange(exchanges, order_book);
    get_summary(exchanges)
}

/// A second book from one exchange leaves the store as if the first had
/// never arrived.
pub proof fn lemma_second_book_replaces(s: Seq<OrderBookView>, first: OrderBookView, second: OrderBookView)
    requires
        first.exchange == second.exchange,
    ensures
        apply_book(apply_book(s, first), second) == apply_book(s, second),
{
    let name = first.exchange;
    lemma_book_index(s, name);
    let i = book_index(s, name);
    let s1 = apply_book(s, first);
    if i >= 0 {
        lemma_book_index_at(s1, name, i);
        assert(s1.update(i, second) =~= s.update(i, second));
    } else {
        lemma_book_index_at(s1, name, s.len() as int);
        assert(s1.update(s.len() as int, second) =~= s.push(second));
    }
}

/// The levels of one side of every book of `s` but the one of exchange `name`.
pub open spec fn pooled_except(s: Seq<OrderBookView>, name: Seq<char>, side: Side) -> Seq<Level>
    decreases s.len(),
{
    if s.len() == 0 {
        Seq::empty()
    } else if s.last().exchange == name {
        pooled_except(s.drop_last(), name, side)
    } else {
        pooled_except(s.drop_last(), name, side) + side_levels(s.last(), side)
    }
}

proof fn lemma_pooled_except_absent(s: Seq<OrderBookView>, name: Seq<char>, side: Side)
    requires
        forall|j: int| 0 <= j < s.len() ==> s[j].exchange != name,
    ensures
        pooled_except(s, name, side) == pooled(s, side),
    decreases s.len(),
{
    if s.len() > 0 {
        let t = s.drop_last();
        assert forall|j: int| 0 <= j < t.len() implies t[j].exchange != name by {
            assert(t[j] == s[j]);
        }
        lemma_pooled_except_absent(t, name, side);
    }
}

proof fn lemma_pooled_replace(s: Seq<OrderBookView>, i: int, b: OrderBookView, side: Side)
    requires
        0 <= i < s.len(),
        s[i].exchange == b.exchange,
        forall|j: int| 0 <= j < s.len() && j != i ==> s[j].exchange != b.exchange,
    ensures
        pooled(s.update(i, b), side).to_multiset() == pooled_except(s, b.exchange, side).to_multiset().add(
            side_levels(b, side).to_multiset(),
        ),
    decreases s.len(),
{
    broadcast use vstd::seq_lib::lemma_multiset_commutative;
    broadcast use vstd::multiset::group_multiset_axioms;

    let t = s.drop_last();
    let u = s.update(i, b);
    if i == s.len() - 1 {
        assert(u.drop_last() =~= t);
        assert forall|j: int| 0 <= j < t.len() implies t[j].exchange != b.exchange by {
            assert(t[j] == s[j]);
        }
        lemma_pooled_except_absent(t, b.exchange, side);
    } else {
        assert(u.drop_last() =~= t.update(i, b));
        assert forall|j: int| 0 <= j < t.len() && j != i implies t[j].exchange != b.exchange by {
            assert(t[j] == s[j]);
        }
        lemma_pooled_replace(t, i, b, side);
        let rest = pooled_except(t, b.exchange, side).to_multiset();
        let last = side_levels(s.last(), side).to_multiset();
        let new = side_levels(b, side).to_multiset();
        assert(rest.add(new).add(last) =~= rest.add(last).add(new));
    }
}

/// A book replaces its exchange's part of what is merged: after `b` arrives,
/// the levels pooled for merging are those of the other exchanges and those
/// of `b`, whatever the exchange of `b` sent before.
pub proof fn lemma_book_replaces_contribution(s: Seq<OrderBookView>, b: OrderBookView, side: Side)
    requires
        names_unique(s),
    ensures
        pooled(apply_book(s, b), side).to_multiset() == pooled_except(s, b.exchange, side).to_multiset().add(
            side_levels(b, side).to_multiset(),
        ),
{
    broadcast use vstd::seq_lib::lemma_multiset_commutative;

    lemma_book_index(s, b.exchange);
    let i = book_index(s, b.exchange);
    if i >= 0 {
        lemma_pooled_replace(s, i, b, side);
    } else {
        assert(s.push(b).drop_last() =~= s);
        lemma_pooled_except_absent(s, b.exchange, side);
    }
}

/// Applying a book keeps at most one book per exchange.
pub proof fn lemma_apply_keeps_names_unique(s: Seq<OrderBookView>, b: OrderBookView)
    requires
        names_unique(s),
    ensures
        names_unique(apply_book(s, b)),
{
    lemma_book_index(s, b.exchange);
}

/// What a subscriber's receiver reported.
pub enum RecvOutcome {
    /// The next summary.
    Item(Summary),
    /// The subscriber fell behind and this many summaries were dropped.
    Lagged(u64),
    /// The publisher is gone.
    Closed,
}

/// Why a subscriber's stream yields an error item.
#[derive(Clone, Copy, Debug, PartialEq, Eq, Structural)]
pub enum StreamError {
    /// This many summaries were dropped because the subscriber fell behind.
    Lagged(u64),
}

/// The next item of a subscriber's stream: each summary as it comes, an
/// error when summaries were missed, and the end of the stream once the
/// publisher is gone.
pub fn stream_item(outcome: RecvOutcome) -> (r: Option<Result<Summary, StreamError>>)
    ensures
        match outcome {
            RecvOutcome::Item(s) => r == Some(Ok::<Summary, StreamError>(s)),
            RecvOutcome::Lagged(n) => r == Some(Err::<Summary, StreamError>(StreamError::Lagged(n))),
            RecvOutcome::Closed => r is None,
        },
{
    match outcome {
        RecvOutcome::Item(s) => Some(Ok(s)),
        RecvOutcome::Lagged(n) => Some(Err(StreamError::Lagged(n))),
        RecvOutcome::Closed => None,
    }
}

} // verus!

use vstd::prelude::*;

use crate::decimal::{parse_units, parsed_units};
use crate::exchange::Exchange;
use crate::ranking::{first_levels, is_top, lemma_prefix_is_top, rank_levels, Side};
use core::marker::PhantomData;

verus! {

/// How many levels a side keeps, per exchange and after merging.
pub const DEPTH: usize = 10;

/// One price level. `price` and `amount` are fixed-point numbers counted in
/// units of 10^-8 (see `crate::decimal`).
#[derive(Clone, Copy, Debug)]
pub struct Level {
    pub exchange: &'static str,
    pub price: u64,
    pub amount: u64,
}

/// A level read from an exchange, not yet tagged with the exchange's name.
pub struct LevelBuilder<X: Exchange> {
    pub price: u64,
    pub amount: u64,
    pub phantom: PhantomData<X>,
}

impl<X: Exchange> LevelBuilder<X> {
    pub fn new(price: u64, amount: u64) -> (r: Self)
        ensures
            r.price == price,
            r.amount == amount,
    {
        LevelBuilder { price, amount, phantom: PhantomData }
    }

    /// The level tagged with the exchange's name.
    pub fn build(self) -> (r: Level)
        ensures
            r.exchange@ == X::spec_name(),
            r.price == self.price,
            r.amount == self.amount,
    {
        Level { exchange: X::get_name(), price: self.price, amount: self.amount }
    }
}

/// Why the fields of a level could not be read.
#[derive(Clone, Copy, Debug, PartialEq, Eq, Structural)]
pub enum LevelError {
    /// A level is a price and an amount, nothing else.
    WrongShape,
    /// The price is not a non-negative decimal that fits.
    BadPrice,
    /// The amount is not a non-negative decimal that fits.
    BadAmount,
}

/// The price and the amount that the fields of a level give, when they are
/// exactly two decimal texts.
pub open spec fn level_units(fields: Seq<String>) -> Option<(u64, u64)> {
    if fields.len() == 2 {
        match (parsed_units(fields[0]@), parsed_units(fields[1]@)) {
            (Some(p), Some(a)) => Some((p, a)),
            _ => None,
        }
    } else {
        None
    }
}

impl<X: Exchange> LevelBuilder<X> {
    /// Reads a level from its wire fields: a price and an amount, each a
    /// decimal text.
    pub fn from_fields(fields: &Vec<String>) -> (r: Result<Self, LevelError>)
        ensures
            fields@.len() != 2 ==> r == Err::<Self, LevelError>(LevelError::WrongShape),
            fields@.len() == 2 && parsed_units(fields@[0]@) is None ==> r == Err::<Self, LevelError>(
                LevelError::BadPrice,
            ),
            fields@.len() == 2 && parsed_units(fields@[0]@) is Some && parsed_units(
                fields@[1]@,
            ) is None ==> r == Err::<Self, LevelError>(LevelError::BadAmount),
            r is Ok <==> level_units(fields@) is Some,
            r is Ok ==> level_units(fields@) == Some((r->Ok_0.price, r->Ok_0.amount)),
    {
        if fields.len() != 2 {
            return Err(LevelError::WrongShape);
        }
        let price = match parse_units(fields[0].as_str()) {
            Some(p) => p,
            None => {
                return Err(LevelError::BadPrice);
            },
        };
        let amount = match parse_units(fields[1].as_str()) {
            Some(a) => a,
            None => {
                return Err(LevelError::BadAmount);
            },
        };
        Ok(LevelBuilder::new(price, amount))
    }
}

/// The levels that `rows` give, each read by `level_units`.
pub open spec fn rows_read<X: Exchange>(rows: Seq<Vec<String>>, r: Seq<LevelBuilder<X>>) -> bool {
    &&& r.len() == rows.len()
    &&& forall|i: int|
        0 <= i < rows.len() ==> level_units(#[trigger] rows[i]@) == Some((r[i].price, r[i].amount))
}

/// Every row of `rows` is a readable level.
pub open spec fn rows_readable(rows: Seq<Vec<String>>) -> bool {
    forall|i: int| 0 <= i < rows.len() ==> (#[trigger] level_units(rows[i]@)) is Some
}

/// Reads every row; `None` when any row is not a level.
fn read_rows<X: Exchange>(rows: &Vec<Vec<String>>) -> (r: Option<Vec<LevelBuilder<X>>>)
    ensures
        r is Some <==> rows_readable(rows@),
        r is Some ==> rows_read(rows@, r->Some_0@),
{
    let mut out: Vec<LevelBuilder<X>> = Vec::new();
    let mut i: usize = 0;
    while i < rows.len()
        invariant
            i <= rows@.len(),
            rows_read(rows@.take(i as int), out@),
            rows_readable(rows@.take(i as int)),
        decreases rows@.len() - i,
    {
        match LevelBuilder::<X>::from_fields(&rows[i]) {
            Ok(level) => {
                out.push(level);
                assert(rows@.take(i + 1) =~= rows@.take(i as int).push(rows@[i as int]));
            },
            Err(_) => {
                return None;
            },
        }
        i = i + 1;
    }
    assert(rows@.take(i as int) =~= rows@);
    Some(out)
}

/// All levels of one exchange message, in the order they came.
pub struct OrderBookBuilder<X: Exchange> {
    pub bids: Vec<LevelBuilder<X>>,
    pub asks: Vec<LevelBuilder<X>>,
}

/// The levels of `s`, tagged with the exchange's name.
pub open spec fn tagged<X: Exchange>(s: Seq<LevelBuilder<X>>, name: &'static str) -> Seq<Level> {
    s.map_values(|b: LevelBuilder<X>| Level { exchange: name, price: b.price, amount: b.amount })
}

/// One exchange's snapshot: at most `DEPTH` bids, best first, and at most
/// `DEPTH` asks, best first, all tagged with the exchange's name.
#[derive(Debug)]
pub struct OrderBook {
    pub exchange: &'static str,
    pub bids: Vec<Level>,
    pub asks: Vec<Level>,
}

/// The contents of an order book.
pub struct OrderBookView {
    pub exchange: Seq<char>,
    pub bids: Seq<Level>,
    pub asks: Seq<Level>,
}

impl View for OrderBook {
    type V = OrderBookView;

    open spec fn view(&self) -> OrderBookView {
        OrderBookView { exchange: self.exchange@, bids: self.bids@, asks: self.asks@ }
    }
}

impl OrderBook {
    /// A snapshot as an exchange feed emits it: each side holds the best
    /// `DEPTH` levels of what the exchange sent, best first.
    pub open spec fn is_snapshot_of(self, name: &'static str, bids: Seq<Level>, asks: Seq<Level>) -> bool {
        &&& self.exchange == name
        &&& is_top(Side::Bid, bids, self.bids@, DEPTH as nat)
        &&& is_top(Side::Ask, asks, self.asks@, DEPTH as nat)
    }

    pub fn get_exchange_name(&self) -> (r: &'static str)
        ensures
            r == self.exchange,
    {
        self.exchange
    }

    /// Copies of the bids and the asks.
    pub fn get_levels(&self) -> (r: (Vec<Level>, Vec<Level>))
        ensures
            r.0@ == self.bids@,
            r.1@ == self.asks@,
    {
        (copy_levels(&self.bids), copy_levels(&self.asks))
    }
}

/// A copy of `s`.
pub fn copy_levels(s: &Vec<Level>) -> (r: Vec<Level>)
    ensures
        r@ == s@,
{
    let mut out: Vec<Level> = Vec::new();
    let mut i: usize = 0;
    while i < s.len()
        invariant
            i <= s.len(),
            out@ == s@.take(i as int),
        decreases s.len() - i,
    {
        out.push(s[i]);
        assert(s@.take(i + 1) =~= s@.take(i as int).push(s@[i as int]));
        i = i + 1;
    }
    assert(s@.take(i as int) =~= s@);
    out
}

/// Tags each level of `s` with `name`.
fn tag_levels<X: Exchange>(s: Vec<LevelBuilder<X>>, name: &'static str) -> (r: Vec<Level>)
    ensures
        r@ == tagged(s@, name),
{
    let mut out: Vec<Level> = Vec::new();
    let mut i: usize = 0;
    while i < s.len()
        invariant
            i <= s.len(),
            out@ == tagged(s@.take(i as int), name),
        decreases s.len() - i,
    {
        out.push(Level { exchange: name, price: s[i].price, amount: s[i].amount });
        assert(s@.take(i + 1) =~= s@.take(i as int).push(s@[i as int]));
        assert(tagged(s@.take(i + 1), name) =~= tagged(s@.take(i as int), name).push(
            Level { exchange: name, price: s@[i as int].price, amount: s@[i as int].amount },
        ));
        i = i + 1;
    }
    assert(s@.take(i as int) =~= s@);
    out
}

impl<X: Exchange> OrderBookBuilder<X> {
    /// Reads a message's bid rows and ask rows. `None` when any row is not a
    /// level, which drops the whole message.
    pub fn from_fields(bids: &Vec<Vec<String>>, asks: &Vec<Vec<String>>) -> (r: Option<Self>)
        ensures
            r is Some <==> rows_readable(bids@) && rows_readable(asks@),
            r is Some ==> rows_read(bids@, r->Some_0.bids@) && rows_read(asks@, r->Some_0.asks@),
    {
        let bid_levels = match read_rows::<X>(bids) {
            Some(b) => b,
            None => {
                return None;
            },
        };
        let ask_levels = match read_rows::<X>(asks) {
            Some(a) => a,
            None => {
                return None;
            },
        };
        Some(OrderBookBuilder { bids: bid_levels, asks: ask_levels })
    }

    /// The exchange's snapshot: the best `DEPTH` bids and the best `DEPTH`
    /// asks of the message, tagged with the exchange's name.
    pub fn build(self) -> (r: OrderBook)
        ensures
            r.exchange@ == X::spec_name(),
            r.is_snapshot_of(r.exchange, tagged(self.bids@, r.exchange), tagged(self.asks@, r.exchange)),
    {
        let name = X::get_name();
        let OrderBookBuilder { bids, asks } = self;
        let bid_levels = tag_levels(bids, name);
        let ask_levels = tag_levels(asks, name);
        let ranked_bids = rank_levels(Side::Bid, &bid_levels);
        let ranked_asks = rank_levels(Side::Ask, &ask_levels);
        proof {
            lemma_prefix_is_top(Side::Bid, bid_levels@, ranked_bids@, DEPTH as nat);
            lemma_prefix_is_top(Side::Ask, ask_levels@, ranked_asks@, DEPTH as nat);
        }
        OrderBook {
            exchange: name,
            bids: first_levels(&ranked_bids, DEPTH),
            asks: first_levels(&ranked_asks, DEPTH),
        }
    }
}

/// The level that a readable row gives, tagged with `name`.
pub open spec fn row_level(row: Vec<String>, name: &'static str) -> Level {
    let (p, a) = level_units(row@)->Some_0;
    Level { exchange: name, price: p, amount: a }
}

pub open spec fn rows_levels(rows: Seq<Vec<String>>, name: &'static str) -> Seq<Level> {
    rows.map_values(|row: Vec<String>| row_level(row, name))
}

proof fn lemma_rows_tagged<X: Exchange>(rows: Seq<Vec<String>>, r: Seq<LevelBuilder<X>>, name: &'static str)
    requires
        rows_read(rows, r),
    ensures
        tagged(r, name) == rows_levels(rows, name),
{
    assert forall|i: int| 0 <= i < rows.len() implies tagged(r, name)[i] == rows_levels(rows, name)[i] by {
        assert(level_units(rows[i]@) == Some((r[i].price, r[i].amount)));
    }
    assert(tagged(r, name) =~= rows_levels(rows, name));
}

/// The snapshot that one depth message of exchange `X` gives: `None` when
/// any of its rows is not a level, else the best `DEPTH` bids and asks of
/// the message, tagged with the exchange's name.
pub fn order_book_from_rows<X: Exchange>(bids: &Vec<Vec<String>>, asks: &Vec<Vec<String>>) -> (r: Option<OrderBook>)
    ensures
        r is Some <==> rows_readable(bids@) && rows_readable(asks@),
        r matches Some(b) ==> b.exchange@ == X::spec_name() && b.is_snapshot_of(
            b.exchange,
            rows_levels(bids@, b.exchange),
            rows_levels(asks@, b.exchange),
        ),
{
    match OrderBookBuilder::<X>::from_fields(bids, asks) {
        Some(builder) => {
            let ghost bid_rows = builder.bids@;
            let ghost ask_rows = builder.asks@;
            let book = builder.build();
            proof {
                lemma_rows_tagged(bids@, bid_rows, book.exchange);
                lemma_rows_tagged(asks@, ask_rows, book.exchange);
            }
            Some(book)
        },
        None => None,
    }
}

} // verus!

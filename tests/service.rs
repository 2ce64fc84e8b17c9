use orderbook_aggregator::decimal::parse_units;
use orderbook_aggregator::order_book::{Level, OrderBook};
use orderbook_aggregator::service::{
    get_summary, get_ten_first_levels, merge_levels, stream_item, update_exchange, ExchangeStore,
    RecvOutcome, StreamError, Summary,
};
use tokio::sync::broadcast;
use tokio::sync::broadcast::error::TryRecvError;

fn units(text: &str) -> u64 {
    parse_units(text).unwrap()
}

fn level(exchange: &'static str, price: &str, amount: &str) -> Level {
    Level { exchange, price: units(price), amount: units(amount) }
}

fn book(exchange: &'static str, bids: &[(&str, &str)], asks: &[(&str, &str)]) -> OrderBook {
    OrderBook {
        exchange,
        bids: bids.iter().map(|(p, a)| level(exchange, p, a)).collect(),
        asks: asks.iter().map(|(p, a)| level(exchange, p, a)).collect(),
    }
}

fn points(levels: &[Level]) -> Vec<(u64, u64)> {
    levels.iter().map(|l| (l.price, l.amount)).collect()
}

fn outcome(received: Result<Summary, TryRecvError>) -> Option<RecvOutcome> {
    match received {
        Ok(summary) => Some(RecvOutcome::Item(summary)),
        Err(TryRecvError::Lagged(n)) => Some(RecvOutcome::Lagged(n)),
        Err(TryRecvError::Closed) => Some(RecvOutcome::Closed),
        Err(TryRecvError::Empty) => None,
    }
}

fn summary_with_spread(spread: i128) -> Summary {
    Summary { spread: Some(spread), bids: vec![], asks: vec![] }
}

#[test]
fn single_exchange_summary() {
    let mut store = ExchangeStore::new();
    update_exchange(
        &mut store,
        book("exchange-a", &[("100.0", "5"), ("99.0", "3")], &[("101.0", "2")]),
    );
    let summary = get_summary(&store);
    assert_eq!(points(&summary.bids), vec![(units("100.0"), units("5")), (units("99.0"), units("3"))]);
    assert_eq!(points(&summary.asks), vec![(units("101.0"), units("2"))]);
    assert_eq!(summary.spread, Some(units("1.0") as i128));
}

#[test]
fn equal_price_orders_by_amount() {
    let mut store = ExchangeStore::new();
    update_exchange(&mut store, book("exchange-a", &[("100.0", "5")], &[]));
    update_exchange(&mut store, book("exchange-b", &[("100.0", "9")], &[]));
    let summary = get_summary(&store);
    assert_eq!(summary.bids.len(), 2);
    assert_eq!(summary.bids[0].exchange, "exchange-b");
    assert_eq!(summary.bids[0].amount, units("9"));
    assert_eq!(summary.bids[1].exchange, "exchange-a");
    assert_eq!(summary.bids[1].amount, units("5"));
    assert_eq!(summary.spread, None);
}

#[test]
fn equal_price_asks_order_by_amount() {
    let mut store = ExchangeStore::new();
    update_exchange(&mut store, book("exchange-a", &[], &[("100.0", "5"), ("101.0", "1")]));
    update_exchange(&mut store, book("exchange-b", &[], &[("100.0", "9")]));
    let (bids, asks) = merge_levels(&store);
    assert!(bids.is_empty());
    assert_eq!(
        points(&asks),
        vec![
            (units("100.0"), units("9")),
            (units("100.0"), units("5")),
            (units("101.0"), units("1"))
        ]
    );
}

#[test]
fn second_book_replaces_first() {
    let mut store = ExchangeStore::new();
    update_exchange(&mut store, book("exchange-a", &[("100", "1")], &[("101", "1")]));
    update_exchange(&mut store, book("exchange-a", &[("102", "1")], &[("103", "1")]));
    assert_eq!(store.len(), 1);
    let summary = get_summary(&store);
    assert_eq!(points(&summary.bids), vec![(units("102"), units("1"))]);
    assert_eq!(points(&summary.asks), vec![(units("103"), units("1"))]);
    assert_eq!(summary.spread, Some(units("1") as i128));
}

#[test]
fn empty_store_has_no_spread() {
    let store = ExchangeStore::new();
    let summary = get_summary(&store);
    assert!(summary.bids.is_empty());
    assert!(summary.asks.is_empty());
    assert_eq!(summary.spread, None);
    assert_eq!(store.len(), 0);
}

#[test]
fn one_sided_store_has_no_spread() {
    let mut store = ExchangeStore::new();
    update_exchange(&mut store, book("exchange-a", &[("100", "1")], &[]));
    assert_eq!(get_summary(&store).spread, None);
}

#[test]
fn crossed_books_give_negative_spread() {
    let mut store = ExchangeStore::new();
    update_exchange(&mut store, book("exchange-a", &[("101", "1")], &[]));
    update_exchange(&mut store, book("exchange-b", &[], &[("100.5", "1")]));
    assert_eq!(get_summary(&store).spread, Some(-(units("0.5") as i128)));
}

#[test]
fn merge_keeps_ten_best_of_many_exchanges() {
    let names = ["a", "b", "c"];
    let mut store = ExchangeStore::new();
    for (k, name) in names.iter().enumerate() {
        let bids: Vec<Level> = (0..10u64)
            .map(|i| Level { exchange: name, price: 1000 + i * 3 + k as u64, amount: 1 })
            .collect();
        update_exchange(&mut store, OrderBook { exchange: name, bids, asks: vec![] });
    }
    let (bids, _) = merge_levels(&store);
    let prices: Vec<u64> = bids.iter().map(|l| l.price).collect();
    assert_eq!(prices, (1020..1030u64).rev().collect::<Vec<u64>>());
}

#[test]
fn first_ten_levels() {
    let levels: Vec<Level> = (0..12u64).map(|i| Level { exchange: "a", price: i, amount: 1 }).collect();
    let first = get_ten_first_levels(levels);
    assert_eq!(first.len(), 10);
    assert_eq!(first[9].price, 9);
    let few = get_ten_first_levels(vec![Level { exchange: "a", price: 7, amount: 1 }]);
    assert_eq!(few.len(), 1);
}

#[test]
fn stream_items() {
    match stream_item(RecvOutcome::Item(summary_with_spread(5))) {
        Some(Ok(summary)) => assert_eq!(summary.spread, Some(5)),
        _ => panic!("a summary should come through"),
    }
    assert_eq!(stream_item(RecvOutcome::Lagged(3)).map(|r| r.err()), Some(Some(StreamError::Lagged(3))));
    assert!(stream_item(RecvOutcome::Closed).is_none());
}

#[test]
fn late_subscriber_misses_earlier_summaries() {
    let (sender, _keep) = broadcast::channel::<Summary>(16);
    for spread in 0..3 {
        sender.send(summary_with_spread(spread)).unwrap();
    }
    let mut late = sender.subscribe();
    sender.send(summary_with_spread(3)).unwrap();
    match outcome(late.try_recv()).map(stream_item) {
        Some(Some(Ok(summary))) => assert_eq!(summary.spread, Some(3)),
        _ => panic!("the summary sent after subscribing should arrive"),
    }
    assert!(outcome(late.try_recv()).is_none());
}

#[test]
fn slow_subscriber_is_told_it_lagged() {
    let (sender, mut fast) = broadcast::channel::<Summary>(2);
    let mut slow = sender.subscribe();
    for spread in 0..5 {
        sender.send(summary_with_spread(spread)).unwrap();
        match outcome(fast.try_recv()).map(stream_item) {
            Some(Some(Ok(summary))) => assert_eq!(summary.spread, Some(spread)),
            _ => panic!("the fast subscriber should get every summary"),
        }
    }
    match outcome(slow.try_recv()).map(stream_item) {
        Some(Some(Err(StreamError::Lagged(n)))) => assert_eq!(n, 3),
        _ => panic!("the slow subscriber should be told it lagged"),
    }
    match outcome(slow.try_recv()).map(stream_item) {
        Some(Some(Ok(summary))) => assert_eq!(summary.spread, Some(3)),
        _ => panic!("the slow subscriber should go on after the lag"),
    }
}

#[test]
fn closed_distributor_ends_stream() {
    let (sender, mut receiver) = broadcast::channel::<Summary>(2);
    drop(sender);
    assert!(matches!(outcome(receiver.try_recv()).map(stream_item), Some(None)));
}

#[test]
fn aggregate_applies_then_merges() {
    let mut store = ExchangeStore::new();
    let first = orderbook_aggregator::service::aggregate(
        &mut store,
        book("exchange-a", &[("100", "1")], &[("101", "1")]),
    );
    assert_eq!(first.spread, Some(units("1") as i128));
    let second = orderbook_aggregator::service::aggregate(
        &mut store,
        book("exchange-b", &[("100.5", "2")], &[("100.75", "1")]),
    );
    assert_eq!(store.len(), 2);
    assert_eq!(points(&second.bids), vec![(units("100.5"), units("2")), (units("100"), units("1"))]);
    assert_eq!(second.spread, Some(units("0.25") as i128));
}

use rustorderbook::decimal::Decimal;
use rustorderbook::order_book::{best_entries_line, entries_line, BTreeOrderBook, OrderBookOperations};

fn d(text: &str) -> Decimal {
    Decimal::parse(text).unwrap()
}

fn texts(level: Option<(Decimal, Decimal)>) -> Option<(String, String)> {
    level.map(|(p, v)| (p.to_text(), v.to_text()))
}

#[test]
fn new_book_is_empty() {
    let book = BTreeOrderBook::new();
    assert!(book.best_bid().is_none());
    assert!(book.best_ask().is_none());
    assert_eq!(book.get_last_update_id(), 0);
    let book = BTreeOrderBook::default();
    assert!(book.best_bid().is_none());
}

#[test]
fn best_bid_is_highest_and_best_ask_lowest() {
    let mut book = BTreeOrderBook::new();
    book.update(d("100.5"), d("1"), true);
    book.update(d("101.25"), d("2"), true);
    book.update(d("99"), d("3"), true);
    book.update(d("102"), d("4"), false);
    book.update(d("103.5"), d("5"), false);
    book.update(d("102.01"), d("6"), false);
    assert_eq!(texts(book.best_bid()), Some(("101.25".to_string(), "2".to_string())));
    assert_eq!(texts(book.best_ask()), Some(("102".to_string(), "4".to_string())));
}

#[test]
fn zero_volume_removes_the_level() {
    let mut book = BTreeOrderBook::new();
    book.update(d("10"), d("1"), true);
    book.update(d("11"), d("1"), true);
    book.update(d("11.000"), d("0.000"), true);
    assert_eq!(texts(book.best_bid()), Some(("10".to_string(), "1".to_string())));
    book.update(d("10"), d("0"), true);
    assert!(book.best_bid().is_none());
    book.update(d("5"), d("0"), false);
    assert!(book.best_ask().is_none());
}

#[test]
fn a_level_keeps_the_price_it_was_created_with() {
    let mut book = BTreeOrderBook::new();
    book.update(d("1.0"), d("2"), false);
    book.update(d("1.00"), d("3"), false);
    assert_eq!(texts(book.best_ask()), Some(("1.0".to_string(), "3".to_string())));
}

#[test]
fn sides_are_independent() {
    let mut book = BTreeOrderBook::new();
    book.update(d("7"), d("1"), true);
    book.update(d("7"), d("0"), false);
    assert_eq!(texts(book.best_bid()), Some(("7".to_string(), "1".to_string())));
    assert!(book.best_ask().is_none());
}

#[test]
fn last_update_id_round_trips() {
    let mut book = BTreeOrderBook::new();
    book.set_last_update_id(160);
    assert_eq!(book.get_last_update_id(), 160);
    book.update(d("1"), d("1"), true);
    assert_eq!(book.get_last_update_id(), 160);
}

#[test]
fn updates_at_different_prices_commute() {
    let mut one = BTreeOrderBook::new();
    one.update(d("1"), d("1"), true);
    one.update(d("2"), d("2"), true);
    one.update(d("2"), d("0"), true);
    let mut two = BTreeOrderBook::new();
    two.update(d("2"), d("2"), true);
    two.update(d("2"), d("0"), true);
    two.update(d("1"), d("1"), true);
    assert_eq!(texts(one.best_bid()), texts(two.best_bid()));
}

#[test]
fn repeating_an_update_changes_nothing() {
    let mut book = BTreeOrderBook::new();
    book.update(d("3"), d("4"), true);
    book.update(d("3"), d("4"), true);
    assert_eq!(texts(book.best_bid()), Some(("3".to_string(), "4".to_string())));
}

#[test]
fn line_with_both_sides() {
    let mut book = BTreeOrderBook::new();
    book.update(d("0.01000000"), d("12.5"), true);
    book.update(d("0.01100000"), d("3"), false);
    assert_eq!(
        best_entries_line(&book, "binance", "bnbbtc"),
        "[binance] bnbbtc - Best bid: 12.5 @ 0.01000000, Best ask: 3 @ 0.01100000"
    );
}

#[test]
fn line_without_data() {
    let mut book = BTreeOrderBook::new();
    assert_eq!(best_entries_line(&book, "binance", "ethusdt"), "[binance] ethusdt - No data available");
    book.update(d("1"), d("1"), true);
    assert_eq!(best_entries_line(&book, "binance", "ethusdt"), "[binance] ethusdt - No data available");
}

#[test]
fn entries_line_from_texts() {
    let texts = Some(("1".to_string(), "2.5".to_string(), "3".to_string(), "2.6".to_string()));
    assert_eq!(entries_line("ex", "sym", texts), "[ex] sym - Best bid: 1 @ 2.5, Best ask: 3 @ 2.6");
    assert_eq!(entries_line("ex", "sym", None), "[ex] sym - No data available");
}

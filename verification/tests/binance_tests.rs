use rustorderbook::decimal::Decimal;
use rustorderbook::exchanges::binance::{
    depth_snapshot_address, depth_stream_address,
    on_decoded, on_stream_message, BinanceConnector, ConnectorEvent, DepthUpdateEvent, EventSync,
    OrderBookSnapshot, StreamAction, StreamMessage, StreamReader,
};
use rustorderbook::exchanges::connector::{Connector, ConnectorError};
use rustorderbook::order_book::{BTreeOrderBook, OrderBookOperations};

fn connector() -> BinanceConnector {
    BinanceConnector::new(
        "wss://stream.binance.com:9443".to_string(),
        "https://api.binance.com".to_string(),
    )
}

fn levels(items: &[(&str, &str)]) -> Vec<(String, String)> {
    items.iter().map(|(p, q)| (p.to_string(), q.to_string())).collect()
}

fn update(first: u64, last: u64, b: &[(&str, &str)], a: &[(&str, &str)]) -> DepthUpdateEvent {
    DepthUpdateEvent {
        event_type: "depthUpdate".to_string(),
        event_time: 123456789,
        symbol: "BNBBTC".to_string(),
        first_update_id: first,
        final_update_id: last,
        b: levels(b),
        a: levels(a),
    }
}

fn texts(level: Option<(Decimal, Decimal)>) -> Option<(String, String)> {
    level.map(|(p, v)| (p.to_text(), v.to_text()))
}

fn pair(p: &str, v: &str) -> Option<(String, String)> {
    Some((p.to_string(), v.to_string()))
}

#[test]
fn name_is_binance() {
    assert_eq!(connector().get_name(), "Binance");
}

#[test]
fn snapshot_url_upper_cases_the_symbol() {
    assert_eq!(
        connector().snapshot_url("bnbbtc"),
        "https://api.binance.com/api/v3/depth?symbol=BNBBTC&limit=1000"
    );
}

#[test]
fn stream_url_lower_cases_the_symbol() {
    match connector().stream_url("BNBBTC") {
        Ok(url) => assert_eq!(url, "wss://stream.binance.com:9443/ws/bnbbtc@depth@100ms"),
        Err(e) => panic!("unexpected {:?}", e),
    }
}

#[test]
fn stream_url_that_does_not_parse() {
    let c = BinanceConnector::new("not a url".to_string(), "x".to_string());
    match c.stream_url("bnbbtc") {
        Err(ConnectorError::ParseError(msg)) => assert!(!msg.is_empty()),
        other => panic!("unexpected {:?}", other.is_ok()),
    }
}

#[test]
fn snapshot_sets_id_and_levels() {
    let c = connector();
    let mut book = BTreeOrderBook::new();
    let snapshot = OrderBookSnapshot {
        last_update_id: 1027024,
        bids: levels(&[("4.00000000", "431.00000000"), ("3.5", "1")]),
        asks: levels(&[("4.00000200", "12.00000000"), ("5", "0")]),
    };
    assert!(c.initialize_book_from_snapshot(&snapshot, &mut book).is_ok());
    assert_eq!(book.get_last_update_id(), 1027024);
    assert_eq!(texts(book.best_bid()), pair("4.00000000", "431.00000000"));
    assert_eq!(texts(book.best_ask()), pair("4.00000200", "12.00000000"));
}

#[test]
fn snapshot_applied_twice_is_applied_once() {
    let c = connector();
    let snapshot = OrderBookSnapshot {
        last_update_id: 7,
        bids: levels(&[("2", "1"), ("2.0", "3"), ("1", "5"), ("1", "0")]),
        asks: levels(&[("3", "0"), ("3", "2"), ("4", "1")]),
    };
    let mut once = BTreeOrderBook::new();
    c.initialize_book_from_snapshot(&snapshot, &mut once).unwrap_or(());
    let mut twice = BTreeOrderBook::new();
    c.initialize_book_from_snapshot(&snapshot, &mut twice).unwrap_or(());
    c.initialize_book_from_snapshot(&snapshot, &mut twice).unwrap_or(());
    assert_eq!(texts(once.best_bid()), texts(twice.best_bid()));
    assert_eq!(texts(once.best_ask()), texts(twice.best_ask()));
    assert_eq!(texts(twice.best_bid()), pair("2", "3"));
    assert_eq!(texts(twice.best_ask()), pair("3", "2"));
}

#[test]
fn snapshot_with_a_bad_level_stops_there() {
    let c = connector();
    let mut book = BTreeOrderBook::new();
    let snapshot = OrderBookSnapshot {
        last_update_id: 9,
        bids: levels(&[("1", "1"), ("oops", "1"), ("3", "1")]),
        asks: levels(&[("4", "1")]),
    };
    match c.initialize_book_from_snapshot(&snapshot, &mut book) {
        Err(ConnectorError::ParseError(msg)) => assert!(!msg.is_empty()),
        _ => panic!("expected a parse error"),
    }
    assert_eq!(book.get_last_update_id(), 9);
    assert_eq!(texts(book.best_bid()), pair("1", "1"));
    assert!(book.best_ask().is_none());
}

#[test]
fn event_levels_fold_into_the_book() {
    let c = connector();
    let mut book = BTreeOrderBook::new();
    let ev = update(1, 2, &[("0.0024", "10")], &[("0.0026", "100")]);
    assert!(c.update_order_book_from_event(&ev, &mut book).is_ok());
    assert_eq!(texts(book.best_bid()), pair("0.0024", "10"));
    assert_eq!(texts(book.best_ask()), pair("0.0026", "100"));
    assert_eq!(book.get_last_update_id(), 0);
}

#[test]
fn bad_ask_quantity_is_a_parse_error() {
    let c = connector();
    let mut book = BTreeOrderBook::new();
    let ev = update(1, 2, &[("1", "1")], &[("2", "x")]);
    match c.update_order_book_from_event(&ev, &mut book) {
        Err(ConnectorError::ParseError(_)) => {}
        _ => panic!("expected a parse error"),
    }
    assert_eq!(texts(book.best_bid()), pair("1", "1"));
    assert!(book.best_ask().is_none());
}

fn synced_book(last: u64) -> BTreeOrderBook {
    let mut book = BTreeOrderBook::new();
    book.set_last_update_id(last);
    book
}

#[test]
fn stale_update_is_ignored() {
    let c = connector();
    let mut sync = EventSync::new();
    let mut book = synced_book(100);
    let r = c.process_event(&mut sync, Some(ConnectorEvent::Data(update(90, 100, &[("1", "1")], &[]))), &mut book);
    assert!(r.is_ok());
    assert!(!sync.processed_first);
    assert!(book.best_bid().is_none());
    assert_eq!(book.get_last_update_id(), 100);
}

#[test]
fn gap_right_after_the_snapshot_is_inconsistent() {
    let c = connector();
    let mut sync = EventSync::new();
    let mut book = synced_book(100);
    let r = c.process_event(&mut sync, Some(ConnectorEvent::Data(update(103, 110, &[("10", "2")], &[]))), &mut book);
    assert!(matches!(r, Err(ConnectorError::InconsistentSequence)));
    assert!(!sync.processed_first);
    assert!(book.best_bid().is_none());
    assert_eq!(book.get_last_update_id(), 100);
}

#[test]
fn first_bridging_update_then_contiguous_ones_apply() {
    let c = connector();
    let mut sync = EventSync::new();
    let mut book = synced_book(100);
    let r = c.process_event(&mut sync, Some(ConnectorEvent::Data(update(95, 105, &[("1", "1")], &[]))), &mut book);
    assert!(r.is_ok());
    assert!(sync.processed_first);
    assert_eq!(book.get_last_update_id(), 105);
    assert_eq!(texts(book.best_bid()), pair("1", "1"));
    let r = c.process_event(&mut sync, Some(ConnectorEvent::Data(update(106, 108, &[("2", "1")], &[]))), &mut book);
    assert!(r.is_ok());
    assert_eq!(book.get_last_update_id(), 108);
    assert_eq!(texts(book.best_bid()), pair("2", "1"));
}

#[test]
fn gap_after_sync_is_inconsistent() {
    let c = connector();
    let mut sync = EventSync::new();
    let mut book = synced_book(100);
    c.process_event(&mut sync, Some(ConnectorEvent::Data(update(101, 101, &[], &[]))), &mut book).unwrap();
    let r = c.process_event(&mut sync, Some(ConnectorEvent::Data(update(103, 104, &[("1", "1")], &[]))), &mut book);
    assert!(matches!(r, Err(ConnectorError::InconsistentSequence)));
    assert_eq!(book.get_last_update_id(), 101);
    assert!(book.best_bid().is_none());
}

#[test]
fn errors_and_closing_end_processing() {
    let c = connector();
    let mut sync = EventSync::new();
    let mut book = synced_book(1);
    let r = c.process_event(&mut sync, Some(ConnectorEvent::Error(ConnectorError::SimulatedDrop)), &mut book);
    assert!(matches!(r, Err(ConnectorError::SimulatedDrop)));
    let r = c.process_event(&mut sync, None, &mut book);
    assert!(matches!(r, Err(ConnectorError::ChannelClosed)));
}

#[test]
fn bad_level_in_applied_update_keeps_the_id() {
    let c = connector();
    let mut sync = EventSync::new();
    let mut book = synced_book(10);
    let r = c.process_event(&mut sync, Some(ConnectorEvent::Data(update(11, 12, &[("1", "y")], &[]))), &mut book);
    assert!(matches!(r, Err(ConnectorError::ParseError(_))));
    assert!(sync.processed_first);
    assert_eq!(book.get_last_update_id(), 10);
}

#[test]
fn stream_messages() {
    match on_stream_message(StreamMessage::Text("{}".to_string()), false) {
        StreamAction::Decode(bytes) => assert_eq!(bytes, b"{}".to_vec()),
        _ => panic!("expected bytes"),
    }
    match on_stream_message(StreamMessage::Binary(vec![1, 2]), false) {
        StreamAction::Decode(bytes) => assert_eq!(bytes, vec![1, 2]),
        _ => panic!("expected bytes"),
    }
    assert!(matches!(on_stream_message(StreamMessage::Other, true), StreamAction::Skip));
    assert!(matches!(
        on_stream_message(StreamMessage::Text("{}".to_string()), true),
        StreamAction::Stop(ConnectorError::SimulatedDrop)
    ));
    match on_stream_message(StreamMessage::Failed("reset".to_string()), false) {
        StreamAction::Stop(ConnectorError::WebSocketError(msg)) => assert_eq!(msg, "reset"),
        _ => panic!("expected a websocket error"),
    }
}

#[test]
fn decoded_messages() {
    let (ev, go_on) = on_decoded(Ok(update(1, 2, &[], &[])));
    assert!(go_on);
    assert!(matches!(ev, ConnectorEvent::Data(_)));
    let (ev, go_on) = on_decoded(Err("bad json".to_string()));
    assert!(!go_on);
    match ev {
        ConnectorEvent::Error(ConnectorError::DeserializationError(msg)) => assert_eq!(msg, "bad json"),
        _ => panic!("expected a deserialization error"),
    }
}

#[test]
fn addresses_from_their_parts() {
    assert_eq!(depth_snapshot_address("http://h", "ABC"), "http://h/api/v3/depth?symbol=ABC&limit=1000");
    assert_eq!(depth_stream_address("ws://h", "abc"), "ws://h/ws/abc@depth@100ms");
}

#[test]
fn snapshot_leaves_unnamed_levels_alone() {
    let c = connector();
    let mut book = BTreeOrderBook::new();
    book.update(Decimal::parse("9").unwrap(), Decimal::parse("1").unwrap(), true);
    let snapshot = OrderBookSnapshot { last_update_id: 3, bids: levels(&[("5", "2")]), asks: levels(&[]) };
    assert!(c.initialize_book_from_snapshot(&snapshot, &mut book).is_ok());
    assert_eq!(texts(book.best_bid()), pair("9", "1"));
}

fn decode_ok(_bytes: Vec<u8>) -> Result<DepthUpdateEvent, String> {
    Ok(update(1, 2, &[], &[]))
}

fn decode_err(_bytes: Vec<u8>) -> Result<DepthUpdateEvent, String> {
    Err("expected value".to_string())
}

#[test]
fn reader_hands_on_updates_until_an_error() {
    let mut reader = StreamReader::new();
    assert!(matches!(reader.read(StreamMessage::Text("{}".to_string()), false, &decode_ok), Some(ConnectorEvent::Data(_))));
    assert!(reader.read(StreamMessage::Other, false, &decode_ok).is_none());
    assert!(!reader.stopped);
    match reader.read(StreamMessage::Binary(vec![1]), false, &decode_err) {
        Some(ConnectorEvent::Error(ConnectorError::DeserializationError(msg))) => assert_eq!(msg, "expected value"),
        _ => panic!("expected a deserialization error"),
    }
    assert!(reader.stopped);
    assert!(reader.read(StreamMessage::Text("{}".to_string()), false, &decode_ok).is_none());
    assert!(reader.read(StreamMessage::Failed("x".to_string()), false, &decode_ok).is_none());
}

#[test]
fn reader_stops_on_a_drop_or_a_read_error() {
    let mut reader = StreamReader::new();
    assert!(matches!(
        reader.read(StreamMessage::Binary(vec![1]), true, &decode_ok),
        Some(ConnectorEvent::Error(ConnectorError::SimulatedDrop))
    ));
    assert!(reader.stopped);
    let mut reader = StreamReader::new();
    assert!(matches!(
        reader.read(StreamMessage::Failed("closed".to_string()), false, &decode_ok),
        Some(ConnectorEvent::Error(ConnectorError::WebSocketError(_)))
    ));
    assert!(reader.read(StreamMessage::Text("{}".to_string()), false, &decode_ok).is_none());
}

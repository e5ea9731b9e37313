# rustorderbook

A real-time order book builder for Binance depth streams, written in Verus.

- `src/` is the verified library:
  - `decimal.rs`: decimals as `rust_decimal` represents them, their parsing
    and display (through `rust_decimal`), and the integer keys that order
    prices by value;
  - `order_book.rs`: the `OrderBookOperations` trait and `BTreeOrderBook`,
    with best bid/ask and the line that reports them;
  - `exchanges/levels.rs`: folding price levels (as texts) into a book;
  - `exchanges/binance.rs`: the Binance connector's addresses, snapshot
    initialisation, the rule that keeps the depth stream in step with the
    book, and the handling of stream messages;
  - `exchanges/connector.rs`: connector errors, the `Connector` trait and the
    retry rule of a connector manager;
  - `config.rs`: the configuration and the books it asks for.
- `app/` is the program around it: configuration file, tokio tasks, the
  WebSocket stream, the REST snapshot and the logging loop.
- `tests/` runs the library on concrete values.

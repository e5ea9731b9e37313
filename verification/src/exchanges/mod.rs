//! Connectors: what every connector shares, how levels are folded into a
//! book, and the Binance connector.

pub mod binance;
pub mod connector;
pub mod levels;

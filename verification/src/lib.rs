//! A real-time order book builder: the book itself, the rules by which an
//! exchange's depth stream is kept in step with it, and the decisions of the
//! connectors that feed it.

pub mod decimal;
pub mod order_book;
pub mod config;
pub mod exchanges;

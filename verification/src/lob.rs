//! The limit order book: ladders, the per-instrument depth book, the registry
//! of books, and what is proved of them.

pub mod chain;
pub mod laws;
pub mod merge;
pub mod model;
pub mod order_book;
pub mod orderbooks;

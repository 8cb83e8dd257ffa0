//! Venue adapters: what is common to them, and the Binance futures adapter.

pub mod binance;
pub mod connector;

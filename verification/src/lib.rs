//! Depth-book reconciliation for exchange market data.
//!
//! The crate keeps one bounded bid/ask ladder per instrument and reconciles a
//! stream of incremental depth deltas with out-of-band snapshots under a
//! sequence-id discipline.  Prices and quantities are fixed-point integers;
//! every comparison between them goes through the tick-relative equality of
//! [`common::tick_near`].
//!
//! [`lob`] holds the ladders, the book, its registry and the laws proved of
//! them; [`runner`] the decisions of the loops that feed the books;
//! [`scheme`] the venue adapters; [`decimal`] the reading and writing of
//! decimal text.

pub mod common;
pub mod config;
pub mod decimal;
pub mod lob;
pub mod runner;
pub mod scheme;
pub mod structure;
pub mod text;

//! Consolidated order-book aggregator.
//!
//! The library merges depth-of-book snapshots from two exchanges into a
//! single top-of-book view of fixed depth, drives the aggregation state
//! machine, and models the latest-value broadcast primitive that fans the
//! consolidated snapshots out to subscribers.

use vstd::prelude::*;

pub mod aggregator;
pub mod broadcast;
pub mod num;
pub mod orderbook;
pub mod symbol;

verus! {

/// Number of price levels retained per side, both per exchange and in the
/// consolidated output.
pub const DEPTH: usize = 10;

/// Base URL of the Binance depth stream.
pub const BINANCE_WS_URL: &'static str = "wss://stream.binance.com:9443/ws";

/// URL of the Bitstamp websocket endpoint.
pub const BITSTAMP_WS_URL: &'static str = "wss://ws.bitstamp.net";

} // verus!

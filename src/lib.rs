//! Polls on-chain price-oracle feeds and delivers each observed round.
//!
//! The library holds the decisions, each proved against its contract: the
//! fetch loop that walks the feeds in order and survives failed reads
//! ([`fetcher`]), the start/stop protocol around it ([`lifecycle`]), the
//! stored form of a round ([`codec`]) and the store that keeps the latest
//! round of each feed ([`store`]), and the network presets ([`chains`]).
//! Whoever drives the loop performs the reads, the waits and the deliveries.

pub mod chains;
pub mod codec;
pub mod error;
pub mod fetcher;
pub mod lifecycle;
pub mod round;
pub mod store;
pub mod table;

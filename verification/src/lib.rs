//! Multi-venue order-book consolidation engine.
//!
//! The crate keeps one order book per exchange venue, applies snapshot and
//! incremental depth events under a per-venue sequencing rule, merges the
//! synced books into a consolidated best-bid/best-ask view, and suppresses
//! republication of unchanged views. Connection backoff and subscriber
//! fan-out policies are modelled as pure, verified functions; the
//! surrounding transport (sockets, channels, task plumbing) lives outside
//! the verified core and feeds it plain values.

pub mod backoff;
pub mod decimal;
pub mod ladder;
pub mod book;
pub mod consolidate;
pub mod engine;
pub mod publish;
pub mod binance;

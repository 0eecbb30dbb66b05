//! Core of an algorithmic trading orchestrator: the shared event and order
//! vocabulary, the trade ledger with its lifecycle state machine, the event
//! router, the strategy runtime with its reconciler, the execution pipeline,
//! the Sharpe-based meta-allocator and the drawdown supervisor.
//!
//! All monetary quantities are fixed-point integers in micro-USD
//! (1 USD = 1_000_000 units); dimensionless ratios such as weights and
//! confidences are in parts per million. Process plumbing (the message bus,
//! the durable store, venue clients) lives outside this crate and hands the
//! library plain values.

pub mod allocator;
pub mod codec;
pub mod ledger;
pub mod models;
pub mod orchestrator;
pub mod pipeline;
pub mod router;
pub mod strategies;
pub mod supervisor;

//! Verified core of a wireless-beacon sniffer.
//!
//! A serial collaborator delivers line-delimited telemetry frames.  Each
//! frame carries a radio channel, a device hardware address, a signal
//! strength reading and an optional broadcast network name.  This crate
//! holds the verified logic of that pipeline:
//!
//! - [`frame`]: line framing and the frame decoder,
//! - [`queue`]: the bounded ingestion queue with explicit backpressure,
//! - [`store`]: the deduplicating aggregation store and its query API,
//! - [`lifecycle`]: the idempotent start/stop controller,
//! - [`json`]: serialization of query snapshots for the foreign caller.
//!
//! The serial transport itself, thread plumbing and the foreign-function
//! surface live outside this crate and only hand plain values in and out.

pub mod clock;
pub mod frame;
pub mod json;
pub mod lifecycle;
pub mod mac;
pub mod parse;
pub mod queue;
pub mod store;
pub mod text;

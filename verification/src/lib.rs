//! Watches a hazard-alert feed and drives deduplicated, at-least-once
//! notifications about alerts near a fixed reference point.
//!
//! The crate holds the verified core: feed parsing, the geofence filter,
//! the durable dedup store's in-memory mirror, message rendering, the
//! poll orchestrator's decisions, and the slash-command/link-rewriting
//! logic. Network and file I/O stay outside, handing plain values in.

pub mod bushfire;
pub mod datastore;
pub mod geo;
pub mod links;
pub mod notify;
pub mod orchestrator;
pub mod slash;
pub mod stamp;
pub mod text;
pub mod xml;

//! Core engine for an anonymous message-in-a-bottle exchange.
//!
//! A *bottle* is a short text message submitted by an origin (a guild
//! channel or a single user in a direct exchange).  The engine pairs each
//! newly submitted bottle with the oldest pending bottle from a different
//! origin, keeps a reputation score per guild driven by reactions on
//! delivered bottles, and owns the per-guild and per-user records.
//!
//! Transport (receiving chat messages, sending deliveries) and durable
//! persistence are collaborators outside this crate: they hand the engine
//! plain values and carry out the deliveries it decides on.

pub mod types;
pub mod store;
pub mod registry;
pub mod ledger;
pub mod matcher;

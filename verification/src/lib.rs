//! A transparent UDP-level protocol demultiplexing proxy, as a verified
//! library: datagrams arriving on one public socket are classified by their
//! first header bytes and routed to one of two fixed backends, with one
//! forwarding session per (client, protocol) pair, idle-session reclamation,
//! and a registry that keeps at most one live session per key.
//!
//! All socket work is left to the embedding program; the library holds the
//! decisions — classification, session-key resolution, registry mutation and
//! the per-session lifecycle state machine — each with a contract.

pub mod classifier;
pub mod endpoint;
pub mod config;
pub mod session;
pub mod registry;
pub mod listener;

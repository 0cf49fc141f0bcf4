//! Command boundary for a drone protocol bridge.
//!
//! Clients send JSON command messages over a WebSocket connection; each
//! message is parsed, validated against physical envelopes, and translated
//! into a typed method call on the local IPC bus.  This crate holds the
//! verified core of that boundary: the command model and its validation
//! rules, the JSON codec for the wire messages, the per-session reply
//! discipline, and the mapping from commands to IPC method calls.  The
//! surrounding async transport (socket accept loop, WebSocket framing,
//! the bus connection) lives outside the verified library.

pub mod command;
pub mod error;
pub mod ipc;
pub mod json;
pub mod session;

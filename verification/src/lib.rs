//! Client-side access layer for a severe-weather event store.
//!
//! A single store process holds time-ordered weather events and arbitrary
//! key/value records; producers and consumers reach it through a small
//! synchronous request/reply protocol.  This crate holds the parts with real
//! design content, all of them verified: the typed event domain model, the
//! binary wire codec that serializes it losslessly, the framing and status
//! dispatch of the protocol, and the closed error taxonomy.  The transport
//! itself (one long-lived request/reply connection) is I/O and lives outside
//! the verified library.

pub mod codec;
pub mod domain;
pub mod domain_codec;
pub mod error;
pub mod protocol;
pub mod util;

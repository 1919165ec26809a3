//! Message protocol layer for the Arduino serial plotter web UI.
//!
//! The crate implements the JSON wire format spoken over a WebSocket between
//! the device-facing middleware and the browser plotter: the tagged message
//! envelope, the settings payloads, the line-ending table, and the pure
//! decision logic of the two stream adapters.  Encoding and decoding are
//! verified against a single specification-level grammar, and the central
//! round-trip laws are proved in [`roundtrip`].

pub mod dec;
pub mod enc;
pub mod error;
pub mod json;
pub mod protocol;
pub mod roundtrip;
pub mod session;

//! The MQTT v5 wire format.
pub mod primitives;
pub mod properties;
pub mod encoding;
pub mod decoding;
pub mod roundtrip;
pub mod framed;
pub mod serialize;

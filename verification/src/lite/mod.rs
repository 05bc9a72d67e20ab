//! A small packet model for a server that answers pings, connections and subscriptions:
//! properties are kept as a list, and packets are written without properties.
pub mod protocol;
pub mod parser;
pub mod decoder;
pub mod server;

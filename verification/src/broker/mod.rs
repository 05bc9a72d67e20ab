//! The broker's own state and decisions: sessions, retained messages, incoming PUBLISH
//! handling and what a connection does on each event.
pub mod session;
pub mod store;
pub mod decimal;
pub mod publish;
pub mod client;
pub mod connection;

//! An MQTT v5 codec and the decision logic of a broker, verified with Verus.
pub mod types;
pub mod codec;
pub mod topic_filter;
pub mod broker;
pub mod lite;

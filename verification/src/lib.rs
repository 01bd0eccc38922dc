//! The core of a serverless text-chat node: the wire codec for chat
//! envelopes, the session state that turns connection and chat events into
//! notices, and the aggregator that merges sub-protocol events into one
//! queue of deferred actions.

pub mod aggregator;
pub mod cbor;
pub mod codec;
pub mod dial;
pub mod driver;
pub mod envelope;
pub mod node;
pub mod notice;
pub mod peer;
pub mod publish;
pub mod session;
pub mod timestamp;

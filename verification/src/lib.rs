//! Wire-level framing for a Kafka-style request/response protocol: fixed-width
//! and variable-length integer codecs, the request header parser, the response
//! envelope, and the per-connection request/response cycle.

pub mod api;
pub mod serialisation;

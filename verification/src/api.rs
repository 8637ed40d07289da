//! The typed requests and responses that ride on the wire format, and the
//! request/response cycle of a connection.

use vstd::prelude::*;
use crate::serialisation::{be_bytes_u32, bits_of_i32, ToKafkaBytes};

pub mod api_key;
pub mod api_versions;
pub mod correlation_id;
pub mod request;
pub mod response;
pub mod server;

verus! {

/// A bare response header: the size of what follows and the correlation id.
pub struct KafkaResponse {
    message_size: i32,
    correlation_id: i32,
}

impl KafkaResponse {
    /// The size that the header announces.
    pub closed spec fn message_size(&self) -> i32 {
        self.message_size
    }

    /// The correlation id that the header carries.
    pub closed spec fn correlation_id(&self) -> i32 {
        self.correlation_id
    }

    /// The header that announces nothing behind it and carries the id 7.
    pub fn new() -> (response: KafkaResponse)
        ensures
            response.message_size() == 0,
            response.correlation_id() == 7,
    {
        KafkaResponse { message_size: 0, correlation_id: 7 }
    }

    /// Convert the message to bytes that can be returned in the response
    pub fn to_bytes(&self) -> (bytes: Vec<u8>)
        ensures
            bytes@ == be_bytes_u32(bits_of_i32(self.message_size())) + be_bytes_u32(
                bits_of_i32(self.correlation_id()),
            ),
    {
        let mut bytes: Vec<u8> = self.message_size.to_kafka_bytes();
        let mut id_bytes: Vec<u8> = self.correlation_id.to_kafka_bytes();
        bytes.append(&mut id_bytes);
        bytes
    }
}

} // verus!

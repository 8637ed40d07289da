//! What every response begins with.

use vstd::prelude::*;
use crate::api::correlation_id::CorrelationId;
use crate::api::request::KafkaRequest;
use crate::serialisation::ToKafkaBytes;

verus! {

/// The part that all responses share: the correlation id of the request.
#[derive(Debug)]
pub struct BaseKafkaResponse {
    correlation_id: CorrelationId,
}

impl View for BaseKafkaResponse {
    type V = i32;

    closed spec fn view(&self) -> i32 {
        self.correlation_id@
    }
}

impl BaseKafkaResponse {
    /// The response header that answers `request`: it carries the request's
    /// correlation id.
    pub fn new(request: &KafkaRequest) -> (response: BaseKafkaResponse)
        ensures
            response@ == request@.correlation_id,
    {
        BaseKafkaResponse { correlation_id: request.correlation_id() }
    }
}

impl ToKafkaBytes for BaseKafkaResponse {
    open spec fn kafka_bytes(self) -> Seq<u8> {
        self@.kafka_bytes()
    }

    /// Convert the message to bytes that can be returned in the response
    fn to_kafka_bytes(self) -> (bytes: Vec<u8>) {
        self.correlation_id.to_kafka_bytes()
    }
}

} // verus!

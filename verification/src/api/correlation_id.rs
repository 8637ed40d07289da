//! The token that pairs a response with its request.

use vstd::prelude::*;
use vstd::std_specs::convert::FromSpecImpl;
use crate::api::request::{KafkaRequestParseError, ParseFailure};
use crate::serialisation::from_kafka_bytes::{ByteReader, ReadKafkaBytes};
use crate::serialisation::ToKafkaBytes;

verus! {

/// A number that the client chooses and the response carries back unchanged.
#[derive(Debug, Copy, Clone, PartialEq, Eq, Structural)]
pub struct CorrelationId(i32);

impl View for CorrelationId {
    type V = i32;

    closed spec fn view(&self) -> i32 {
        self.0
    }
}

impl From<i32> for CorrelationId {
    fn from(value: i32) -> (id: Self)
        ensures
            id@ == value,
    {
        CorrelationId(value)
    }
}

impl FromSpecImpl<i32> for CorrelationId {
    open spec fn obeys_from_spec() -> bool {
        true
    }

    closed spec fn from_spec(value: i32) -> Self {
        CorrelationId(value)
    }
}

impl CorrelationId {
    /// The number.
    pub fn value(&self) -> (value: i32)
        ensures
            value == self@,
    {
        self.0
    }
}

impl ReadKafkaBytes for CorrelationId {
    open spec fn decoded(input: Seq<u8>) -> Result<(i32, nat), ParseFailure> {
        i32::decoded(input)
    }

    fn read_kafka_bytes(reader: &mut ByteReader) -> (result: Result<Self, KafkaRequestParseError>) {
        match i32::read_kafka_bytes(reader) {
            Ok(value) => Ok(CorrelationId(value)),
            Err(error) => Err(error),
        }
    }
}

impl ToKafkaBytes for CorrelationId {
    open spec fn kafka_bytes(self) -> Seq<u8> {
        self@.kafka_bytes()
    }

    fn to_kafka_bytes(self) -> (bytes: Vec<u8>) {
        self.0.to_kafka_bytes()
    }
}

} // verus!

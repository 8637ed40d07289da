//! The table of API keys.

use vstd::prelude::*;
use vstd::std_specs::convert::TryFromSpecImpl;
use crate::api::request::{KafkaRequestParseError, ParseFailure};
use crate::serialisation::from_kafka_bytes::{ByteReader, ReadKafkaBytes};
use crate::serialisation::ToKafkaBytes;

verus! {

/// The API that a request addresses.
#[derive(Debug, Clone, Copy, PartialEq, Eq, Structural)]
pub enum ApiKey {
    Produce,
    Fetch,
    ApiVersions,
    DescribeTopicPartitions,
}

/// Why a number is no API key.
#[derive(Debug, Clone, Copy, PartialEq, Eq, Structural)]
pub enum ParseApiKeyError {
    /// The number stands for no known API.
    InvalidKey(i16),
}

impl View for ApiKey {
    type V = ApiKey;

    open spec fn view(&self) -> ApiKey {
        *self
    }
}

impl ApiKey {
    /// The number that stands for this key on the wire.
    pub open spec fn code(self) -> i16 {
        match self {
            ApiKey::Produce => 0,
            ApiKey::Fetch => 1,
            ApiKey::ApiVersions => 18,
            ApiKey::DescribeTopicPartitions => 75,
        }
    }

    /// The key that `code` stands for, if it stands for one.
    pub open spec fn of_code(code: i16) -> Option<ApiKey> {
        if code == 0 {
            Some(ApiKey::Produce)
        } else if code == 1 {
            Some(ApiKey::Fetch)
        } else if code == 18 {
            Some(ApiKey::ApiVersions)
        } else if code == 75 {
            Some(ApiKey::DescribeTopicPartitions)
        } else {
            None
        }
    }
}

impl TryFrom<i16> for ApiKey {
    type Error = ParseApiKeyError;

    fn try_from(value: i16) -> (key: Result<Self, Self::Error>) {
        match value {
            0 => Ok(ApiKey::Produce),
            1 => Ok(ApiKey::Fetch),
            18 => Ok(ApiKey::ApiVersions),
            75 => Ok(ApiKey::DescribeTopicPartitions),
            _ => Err(ParseApiKeyError::InvalidKey(value)),
        }
    }
}

impl TryFromSpecImpl<i16> for ApiKey {
    open spec fn obeys_try_from_spec() -> bool {
        true
    }

    open spec fn try_from_spec(value: i16) -> Result<Self, Self::Error> {
        match ApiKey::of_code(value) {
            Some(key) => Ok(key),
            None => Err(ParseApiKeyError::InvalidKey(value)),
        }
    }
}

impl ReadKafkaBytes for ApiKey {
    open spec fn decoded(input: Seq<u8>) -> Result<(ApiKey, nat), ParseFailure> {
        match i16::decoded(input) {
            Ok((code, taken)) => match ApiKey::of_code(code) {
                Some(key) => Ok((key, taken)),
                None => Err(ParseFailure::InvalidApiKey(code)),
            },
            Err(failure) => Err(failure),
        }
    }

    fn read_kafka_bytes(reader: &mut ByteReader) -> (result: Result<Self, KafkaRequestParseError>) {
        let start: usize = reader.position();
        match i16::read_kafka_bytes(reader) {
            Ok(code) => match ApiKey::try_from(code) {
                Ok(key) => Ok(key),
                Err(error) => {
                    reader.rewind(start);
                    Err(KafkaRequestParseError::InvalidApiKey(error))
                },
            },
            Err(error) => Err(error),
        }
    }
}

impl ToKafkaBytes for ApiKey {
    open spec fn kafka_bytes(self) -> Seq<u8> {
        self.code().kafka_bytes()
    }

    fn to_kafka_bytes(self) -> (bytes: Vec<u8>) {
        let int_repr: i16 = match self {
            ApiKey::Produce => 0,
            ApiKey::Fetch => 1,
            ApiKey::ApiVersions => 18,
            ApiKey::DescribeTopicPartitions => 75,
        };
        int_repr.to_kafka_bytes()
    }
}

} // verus!

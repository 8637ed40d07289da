//! The ApiVersions call: which versions of which APIs are on offer.

use vstd::prelude::*;
use crate::api::api_key::ApiKey;
use crate::api::request::{KafkaRequest, KafkaRequestView};
use crate::api::response::BaseKafkaResponse;
use crate::serialisation::{sequence_bytes, CountEncoding, ToKafkaBytes};

verus! {

/// The body of an ApiVersions request. It is carried as it came and not
/// looked into.
#[derive(Debug)]
pub struct ApiVersionsRequest {
    pub body: Vec<u8>,
}

/// The range of versions of one API that are on offer.
#[derive(Debug, Clone, Copy, PartialEq, Eq, Structural)]
pub struct ApiVersionInfo {
    pub api_key: ApiKey,
    pub min_version: i16,
    pub max_version: i16,
}

/// How an ApiVersions request went.
#[derive(Debug, Clone, Copy, PartialEq, Eq, Structural)]
pub enum ApiVersionsErrorCode {
    NoError,
    UnsupportedVersion,
}

impl ApiVersionsErrorCode {
    /// The number that stands for this outcome on the wire.
    pub open spec fn code(self) -> i16 {
        match self {
            ApiVersionsErrorCode::NoError => 0,
            ApiVersionsErrorCode::UnsupportedVersion => 35,
        }
    }
}

/// The response to an ApiVersions request.
#[derive(Debug)]
pub struct ApiVersionsResponse {
    base_response: BaseKafkaResponse,
    error_code: ApiVersionsErrorCode,
    api_keys: Vec<ApiVersionInfo>,
    throttle_time_ms: i32,
}

/// What an ApiVersions response holds.
pub struct ApiVersionsResponseView {
    pub correlation_id: i32,
    pub error_code: ApiVersionsErrorCode,
    pub api_keys: Seq<ApiVersionInfo>,
    pub throttle_time_ms: i32,
}

impl View for ApiVersionsResponse {
    type V = ApiVersionsResponseView;

    closed spec fn view(&self) -> ApiVersionsResponseView {
        ApiVersionsResponseView {
            correlation_id: self.base_response@,
            error_code: self.error_code,
            api_keys: self.api_keys@,
            throttle_time_ms: self.throttle_time_ms,
        }
    }
}

/// The response that `request` is owed. Versions 0 to 4 of the call are
/// served, with the one range that is on offer; any other version is refused
/// with an empty table.
pub open spec fn api_versions_response(request: KafkaRequestView) -> ApiVersionsResponseView {
    if 0 <= request.api_version <= 4 {
        ApiVersionsResponseView {
            correlation_id: request.correlation_id,
            error_code: ApiVersionsErrorCode::NoError,
            api_keys: seq![
                ApiVersionInfo { api_key: ApiKey::ApiVersions, min_version: 0, max_version: 4 },
            ],
            throttle_time_ms: 0,
        }
    } else {
        ApiVersionsResponseView {
            correlation_id: request.correlation_id,
            error_code: ApiVersionsErrorCode::UnsupportedVersion,
            api_keys: Seq::empty(),
            throttle_time_ms: 0,
        }
    }
}

/// The payload of an ApiVersions response: correlation id, error code, the
/// table as a compact sequence, the throttle time, and an empty tag buffer.
pub open spec fn api_versions_response_bytes(response: ApiVersionsResponseView) -> Seq<u8> {
    response.correlation_id.kafka_bytes() + response.error_code.kafka_bytes() + sequence_bytes(
        CountEncoding::CompactVarInt,
        response.api_keys,
    ) + response.throttle_time_ms.kafka_bytes() + 0u8.kafka_bytes()
}

impl ApiVersionsResponse {
    // in future this should take a specific ApiVersionsRequest
    /// Answers `request`.
    pub fn process_request(request: &KafkaRequest) -> (response: Self)
        ensures
            response@ == api_versions_response(request@),
    {
        let base_response: BaseKafkaResponse = BaseKafkaResponse::new(request);
        let api_version: i16 = request.api_version();
        let error_code: ApiVersionsErrorCode = if 0 <= api_version && api_version <= 4 {
            ApiVersionsErrorCode::NoError
        } else {
            ApiVersionsErrorCode::UnsupportedVersion
        };
        let mut api_keys: Vec<ApiVersionInfo> = Vec::new();
        match error_code {
            ApiVersionsErrorCode::UnsupportedVersion => {},
            // in future this shouldn't be hardcoded
            ApiVersionsErrorCode::NoError => {
                api_keys.push(
                    ApiVersionInfo { api_key: ApiKey::ApiVersions, min_version: 0, max_version: 4 },
                );
            },
        }
        let response = ApiVersionsResponse {
            base_response,
            error_code,
            api_keys,
            throttle_time_ms: 0,
        };
        assert(response@.api_keys =~= api_versions_response(request@).api_keys);
        response
    }
}

impl ToKafkaBytes for ApiVersionsResponse {
    open spec fn kafka_bytes(self) -> Seq<u8> {
        api_versions_response_bytes(self@)
    }

    fn to_kafka_bytes(self) -> (bytes: Vec<u8>) {
        let mut bytes: Vec<u8> = self.base_response.to_kafka_bytes();
        let mut error_code: Vec<u8> = self.error_code.to_kafka_bytes();
        let mut api_keys: Vec<u8> = self.api_keys.to_kafka_bytes();
        let mut throttle_time: Vec<u8> = self.throttle_time_ms.to_kafka_bytes();
        // if we support tags in the future, then we shouldn't hardcode the number of tags as 0 here
        let mut tags: Vec<u8> = 0u8.to_kafka_bytes();
        bytes.append(&mut error_code);
        bytes.append(&mut api_keys);
        bytes.append(&mut throttle_time);
        bytes.append(&mut tags);
        bytes
    }
}

impl ToKafkaBytes for ApiVersionInfo {
    open spec fn kafka_bytes(self) -> Seq<u8> {
        self.api_key.kafka_bytes() + self.min_version.kafka_bytes()
            + self.max_version.kafka_bytes() + 0u8.kafka_bytes()
    }

    fn to_kafka_bytes(self) -> (bytes: Vec<u8>) {
        let mut bytes: Vec<u8> = self.api_key.to_kafka_bytes();
        let mut min_version: Vec<u8> = self.min_version.to_kafka_bytes();
        let mut max_version: Vec<u8> = self.max_version.to_kafka_bytes();
        // if we support tags in the future, then we shouldn't hardcode the number of tags as 0 here
        let mut tags: Vec<u8> = 0u8.to_kafka_bytes();
        bytes.append(&mut min_version);
        bytes.append(&mut max_version);
        bytes.append(&mut tags);
        bytes
    }
}

impl ToKafkaBytes for ApiVersionsErrorCode {
    open spec fn kafka_bytes(self) -> Seq<u8> {
        self.code().kafka_bytes()
    }

    fn to_kafka_bytes(self) -> (bytes: Vec<u8>) {
        let error_code: i16 = match self {
            ApiVersionsErrorCode::NoError => 0,
            ApiVersionsErrorCode::UnsupportedVersion => 35,
        };
        error_code.to_kafka_bytes()
    }
}

} // verus!

use kafka_wire::api::api_key::{ApiKey, ParseApiKeyError};
use kafka_wire::api::api_versions::ApiVersionsResponse;
use kafka_wire::api::correlation_id::CorrelationId;
use kafka_wire::api::request::{ApiRequest, KafkaRequest, KafkaRequestParseError};
use kafka_wire::api::response::BaseKafkaResponse;
use kafka_wire::api::server::{Connection, ConnectionAction, ConnectionEvent, ConnectionState};
use kafka_wire::serialisation::from_kafka_bytes::ByteReader;
use kafka_wire::serialisation::{to_response_message, ToKafkaBytes};

const REQUEST: [u8; 39] = [
    0x00, 0x00, 0x00, 0x23, 0x00, 0x12, 0x00, 0x04, 0x5d, 0xa3, 0x2c, 0x35, 0x00, 0x09, 0x6b, 0x61,
    0x66, 0x6b, 0x61, 0x2d, 0x63, 0x6c, 0x69, 0x00, 0x0a, 0x6b, 0x61, 0x66, 0x6b, 0x61, 0x2d, 0x63,
    0x6c, 0x69, 0x04, 0x30, 0x2e, 0x31, 0x00,
];

const RESPONSE: [u8; 23] = [
    0x00, 0x00, 0x00, 0x13, 0x5d, 0xa3, 0x2c, 0x35, 0x00, 0x00, 0x02, 0x00, 0x12, 0x00, 0x00, 0x00,
    0x04, 0x00, 0x00, 0x00, 0x00, 0x00, 0x00,
];

fn parse(bytes: &[u8]) -> (Result<KafkaRequest, KafkaRequestParseError>, usize) {
    let mut reader = ByteReader::new(bytes);
    let result = KafkaRequest::try_read_from(&mut reader);
    (result, reader.position())
}

fn request_with(api_key: i16, api_version: i16, client_id: &[u8], body: &[u8]) -> Vec<u8> {
    let mut after_size: Vec<u8> = Vec::new();
    after_size.extend_from_slice(&api_key.to_be_bytes());
    after_size.extend_from_slice(&api_version.to_be_bytes());
    after_size.extend_from_slice(&[0x00, 0x00, 0x00, 0x2a]);
    after_size.extend_from_slice(client_id);
    after_size.push(0);
    after_size.extend_from_slice(body);
    let mut bytes = (after_size.len() as i32).to_be_bytes().to_vec();
    bytes.extend_from_slice(&after_size);
    bytes
}

fn written(action: ConnectionAction) -> Vec<u8> {
    match action {
        ConnectionAction::Write(bytes) => bytes,
        other => panic!("no response: {:?}", other),
    }
}

#[test]
fn test_parse_request() {
    let (result, consumed) = parse(&REQUEST);
    let request = result.unwrap();
    assert_eq!(consumed, 39);
    assert_eq!(request.message_size(), 35);
    assert_eq!(request.api_key(), ApiKey::ApiVersions);
    assert_eq!(request.api_version(), 4);
    assert_eq!(request.correlation_id(), CorrelationId::from(0x5da32c35));
    assert_eq!(request.client_id().value().map(|s| s.as_str()), Some("kafka-cli"));
    match request.api_request() {
        ApiRequest::ApiVersions(api_versions) => assert_eq!(api_versions.body, REQUEST[24..].to_vec()),
    }
}

#[test]
fn test_end_to_end() {
    let (result, _) = parse(&REQUEST);
    let request = result.unwrap();
    let response = ApiVersionsResponse::process_request(&request);
    let message = to_response_message(response);
    assert_eq!(message, RESPONSE.to_vec());
    let size = i32::from_be_bytes([message[0], message[1], message[2], message[3]]);
    assert_eq!(size as usize, message.len() - 4);
    assert_eq!(&message[4..8], &[0x5d, 0xa3, 0x2c, 0x35]);
}

#[test]
fn test_parse_leaves_what_follows() {
    let mut bytes = REQUEST.to_vec();
    bytes.extend_from_slice(&REQUEST[..20]);
    let mut reader = ByteReader::new(&bytes);
    assert!(KafkaRequest::try_read_from(&mut reader).is_ok());
    assert_eq!(reader.position(), 39);
    assert_eq!(
        KafkaRequest::try_read_from(&mut reader).err(),
        Some(KafkaRequestParseError::MissingData(9))
    );
    assert_eq!(reader.position(), 39);
}

#[test]
fn test_truncated_header_misses_data() {
    for kept in 0..12usize {
        let expected = if kept < 4 {
            4
        } else if kept < 8 {
            2
        } else {
            4
        };
        let (result, consumed) = parse(&REQUEST[..kept]);
        assert_eq!(result.err(), Some(KafkaRequestParseError::MissingData(expected)));
        assert_eq!(consumed, 0);
    }
}

#[test]
fn test_truncated_request_misses_data() {
    for kept in 12..39usize {
        let expected = if kept < 14 {
            2
        } else if kept < 23 {
            9
        } else if kept < 24 {
            1
        } else {
            15
        };
        let (result, consumed) = parse(&REQUEST[..kept]);
        assert_eq!(result.err(), Some(KafkaRequestParseError::MissingData(expected)));
        assert_eq!(consumed, 0);
    }
}

#[test]
fn test_invalid_api_key() {
    let bytes = request_with(2, 0, &[0xff, 0xff], &[]);
    let (result, consumed) = parse(&bytes);
    assert_eq!(
        result.err(),
        Some(KafkaRequestParseError::InvalidApiKey(ParseApiKeyError::InvalidKey(2)))
    );
    assert_eq!(consumed, 0);
}

#[test]
fn test_every_api_key_parses() {
    for (code, key) in [
        (0i16, ApiKey::Produce),
        (1, ApiKey::Fetch),
        (18, ApiKey::ApiVersions),
        (75, ApiKey::DescribeTopicPartitions),
    ] {
        let bytes = request_with(code, 3, &[0xff, 0xff], &[1, 2, 3]);
        let (result, consumed) = parse(&bytes);
        let request = result.unwrap();
        assert_eq!(consumed, bytes.len());
        assert_eq!(request.api_key(), key);
        assert_eq!(request.api_version(), 3);
        assert_eq!(request.correlation_id(), CorrelationId::from(42));
        assert_eq!(request.client_id().value(), None);
        match request.api_request() {
            ApiRequest::ApiVersions(api_versions) => assert_eq!(api_versions.body, vec![1, 2, 3]),
        }
    }
}

#[test]
fn test_invalid_client_id() {
    let bytes = request_with(18, 0, &[0xff, 0xfe], &[]);
    assert_eq!(parse(&bytes).0.err(), Some(KafkaRequestParseError::InvalidStringLength(-2)));
    let bytes = request_with(18, 0, &[0x00, 0x02, 0xc3, 0x28], &[]);
    assert!(matches!(parse(&bytes).0, Err(KafkaRequestParseError::InvalidString(_))));
}

#[test]
fn test_message_size_below_header_leaves_no_body() {
    let mut bytes = request_with(18, 0, &[0xff, 0xff], &[]);
    bytes[..4].copy_from_slice(&3i32.to_be_bytes());
    bytes.extend_from_slice(&[9, 9]);
    let (result, consumed) = parse(&bytes);
    let request = result.unwrap();
    assert_eq!(request.message_size(), 3);
    assert_eq!(consumed, 15);
    match request.api_request() {
        ApiRequest::ApiVersions(api_versions) => assert!(api_versions.body.is_empty()),
    }
    bytes[..4].copy_from_slice(&(-1i32).to_be_bytes());
    let (result, consumed) = parse(&bytes);
    assert_eq!(result.unwrap().message_size(), -1);
    assert_eq!(consumed, 15);
}

#[test]
fn test_base_response_echoes_correlation_id() {
    let request = parse(&REQUEST).0.unwrap();
    assert_eq!(BaseKafkaResponse::new(&request).to_kafka_bytes(), vec![0x5d, 0xa3, 0x2c, 0x35]);
}

#[test]
fn test_unsupported_version() {
    for version in [5i16, -1, i16::MAX] {
        let bytes = request_with(18, version, &[0xff, 0xff], &[]);
        let request = parse(&bytes).0.unwrap();
        let message = to_response_message(ApiVersionsResponse::process_request(&request));
        assert_eq!(
            message,
            vec![0, 0, 0, 12, 0, 0, 0, 0x2a, 0x00, 0x23, 0x01, 0, 0, 0, 0, 0x00]
        );
    }
    for version in [0i16, 1, 2, 3, 4] {
        let bytes = request_with(18, version, &[0xff, 0xff], &[]);
        let request = parse(&bytes).0.unwrap();
        let payload = ApiVersionsResponse::process_request(&request).to_kafka_bytes();
        assert_eq!(
            payload,
            vec![0, 0, 0, 0x2a, 0, 0, 2, 0x00, 0x12, 0, 0, 0, 4, 0, 0, 0, 0, 0, 0]
        );
    }
}

#[test]
fn test_connection_serves_request() {
    let mut connection = Connection::new();
    assert_eq!(connection.state(), ConnectionState::AwaitingRequest);
    let action = connection.step(ConnectionEvent::Received(REQUEST.to_vec()));
    assert_eq!(written(action), RESPONSE.to_vec());
    assert_eq!(connection.state(), ConnectionState::Writing);
    let action = connection.step(ConnectionEvent::Written);
    assert!(matches!(action, ConnectionAction::Read));
    assert_eq!(connection.state(), ConnectionState::AwaitingRequest);
}

#[test]
fn test_connection_waits_for_whole_request() {
    for cut in 0..39usize {
        let mut connection = Connection::new();
        let action = connection.step(ConnectionEvent::Received(REQUEST[..cut].to_vec()));
        assert!(matches!(action, ConnectionAction::Read));
        assert_eq!(connection.state(), ConnectionState::AwaitingRequest);
        let action = connection.step(ConnectionEvent::Received(REQUEST[cut..].to_vec()));
        assert_eq!(written(action), RESPONSE.to_vec());
    }
}

#[test]
fn test_connection_serves_requests_in_turn() {
    let mut both = REQUEST.to_vec();
    both.extend_from_slice(&request_with(18, 9, &[0xff, 0xff], &[]));
    let mut connection = Connection::new();
    let first = connection.step(ConnectionEvent::Received(both));
    assert_eq!(written(first), RESPONSE.to_vec());
    assert_eq!(connection.state(), ConnectionState::Writing);
    let second = connection.step(ConnectionEvent::Written);
    assert_eq!(
        written(second),
        vec![0, 0, 0, 12, 0, 0, 0, 0x2a, 0x00, 0x23, 0x01, 0, 0, 0, 0, 0x00]
    );
    let third = connection.step(ConnectionEvent::Written);
    assert!(matches!(third, ConnectionAction::Read));
}

#[test]
fn test_connection_closes_when_peer_closes() {
    let mut connection = Connection::new();
    let action = connection.step(ConnectionEvent::PeerClosed);
    assert!(matches!(
        action,
        ConnectionAction::Close(Some(KafkaRequestParseError::MissingData(4)))
    ));
    assert_eq!(connection.state(), ConnectionState::Closed);

    let mut connection = Connection::new();
    connection.step(ConnectionEvent::Received(REQUEST[..20].to_vec()));
    let action = connection.step(ConnectionEvent::PeerClosed);
    assert!(matches!(
        action,
        ConnectionAction::Close(Some(KafkaRequestParseError::MissingData(9)))
    ));
    assert_eq!(connection.state(), ConnectionState::Closed);
}

#[test]
fn test_connection_closes_on_malformed_request() {
    let mut connection = Connection::new();
    let action = connection.step(ConnectionEvent::Received(request_with(7, 0, &[0xff, 0xff], &[])));
    assert!(matches!(
        action,
        ConnectionAction::Close(Some(KafkaRequestParseError::InvalidApiKey(
            ParseApiKeyError::InvalidKey(7)
        )))
    ));
    assert_eq!(connection.state(), ConnectionState::Closed);
    let action = connection.step(ConnectionEvent::Received(REQUEST.to_vec()));
    assert!(matches!(action, ConnectionAction::Close(None)));
    assert_eq!(connection.state(), ConnectionState::Closed);
}

#[test]
fn test_connection_closes_on_event_out_of_turn() {
    let mut connection = Connection::new();
    let action = connection.step(ConnectionEvent::Written);
    assert!(matches!(action, ConnectionAction::Close(None)));
    assert_eq!(connection.state(), ConnectionState::Closed);

    let mut connection = Connection::new();
    connection.step(ConnectionEvent::Received(REQUEST.to_vec()));
    let action = connection.step(ConnectionEvent::Received(REQUEST.to_vec()));
    assert!(matches!(action, ConnectionAction::Close(None)));
    assert_eq!(connection.state(), ConnectionState::Closed);
}

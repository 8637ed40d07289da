use kafka_wire::api::api_key::{ApiKey, ParseApiKeyError};
use kafka_wire::api::api_versions::ApiVersionInfo;
use kafka_wire::api::correlation_id::CorrelationId;
use kafka_wire::api::request::KafkaRequestParseError;
use kafka_wire::api::KafkaResponse;
use kafka_wire::serialisation::from_kafka_bytes::{ByteReader, ReadKafkaBytes};
use kafka_wire::serialisation::nullable_string::NullableString;
use kafka_wire::serialisation::{
    sequence_to_kafka_bytes, to_response_message, u32_to_be_bytes, CountEncoding, ToKafkaBytes,
};

fn read_nullable_string(bytes: &[u8]) -> (Result<NullableString, KafkaRequestParseError>, usize) {
    let mut reader = ByteReader::new(bytes);
    let result = NullableString::read_kafka_bytes(&mut reader);
    (result, reader.position())
}

#[test]
fn test_fixed_width_big_endian() {
    assert_eq!(0x12u8.to_kafka_bytes(), vec![0x12]);
    assert_eq!(0x0102i16.to_kafka_bytes(), vec![0x01, 0x02]);
    assert_eq!((-1i16).to_kafka_bytes(), vec![0xff, 0xff]);
    assert_eq!((-2i16).to_kafka_bytes(), vec![0xff, 0xfe]);
    assert_eq!(i16::MIN.to_kafka_bytes(), vec![0x80, 0x00]);
    assert_eq!(i16::MAX.to_kafka_bytes(), vec![0x7f, 0xff]);
    assert_eq!(0x5da32c35i32.to_kafka_bytes(), vec![0x5d, 0xa3, 0x2c, 0x35]);
    assert_eq!((-1i32).to_kafka_bytes(), vec![0xff, 0xff, 0xff, 0xff]);
    assert_eq!(i32::MIN.to_kafka_bytes(), vec![0x80, 0x00, 0x00, 0x00]);
    assert_eq!(i32::MAX.to_kafka_bytes(), vec![0x7f, 0xff, 0xff, 0xff]);
    assert_eq!(u32_to_be_bytes(0xdead_beef), vec![0xde, 0xad, 0xbe, 0xef]);
}

#[test]
fn test_fixed_width_matches_std() {
    for value in [0i32, 1, -1, 255, 256, -256, 65_535, 65_536, i32::MIN, i32::MAX, 0x0102_0304] {
        assert_eq!(value.to_kafka_bytes(), value.to_be_bytes().to_vec());
        let bytes = value.to_be_bytes();
        let mut reader = ByteReader::new(&bytes);
        assert_eq!(i32::read_kafka_bytes(&mut reader), Ok(value));
        assert_eq!(reader.position(), 4);
    }
    for value in [0i16, 1, -1, 255, 256, -256, i16::MIN, i16::MAX, 0x0102] {
        assert_eq!(value.to_kafka_bytes(), value.to_be_bytes().to_vec());
        let bytes = value.to_be_bytes();
        let mut reader = ByteReader::new(&bytes);
        assert_eq!(i16::read_kafka_bytes(&mut reader), Ok(value));
        assert_eq!(reader.position(), 2);
    }
}

#[test]
fn test_fixed_width_insufficient_data() {
    let bytes = [0x01, 0x02, 0x03];
    let mut reader = ByteReader::new(&bytes);
    assert_eq!(i32::read_kafka_bytes(&mut reader), Err(KafkaRequestParseError::MissingData(4)));
    assert_eq!(reader.position(), 0);
    assert_eq!(i16::read_kafka_bytes(&mut reader), Ok(0x0102));
    assert_eq!(i16::read_kafka_bytes(&mut reader), Err(KafkaRequestParseError::MissingData(2)));
    assert_eq!(reader.position(), 2);
    assert_eq!(u8::read_kafka_bytes(&mut reader), Ok(0x03));
    assert_eq!(u8::read_kafka_bytes(&mut reader), Err(KafkaRequestParseError::MissingData(1)));
    assert_eq!(reader.position(), 3);
}

#[test]
fn test_read_bytes() {
    let bytes = [1, 2, 3, 4, 5];
    let mut reader = ByteReader::new(&bytes);
    assert_eq!(reader.read_bytes(0), Ok(vec![]));
    assert_eq!(reader.read_bytes(2), Ok(vec![1, 2]));
    assert_eq!(reader.read_bytes(4), Err(KafkaRequestParseError::MissingData(4)));
    assert_eq!(reader.position(), 2);
    assert_eq!(reader.read_bytes(3), Ok(vec![3, 4, 5]));
    assert_eq!(reader.position(), 5);
}

#[test]
fn test_nullable_string_absent() {
    let (result, consumed) = read_nullable_string(&[0xff, 0xff, 0x41]);
    assert_eq!(result.unwrap().value(), None);
    assert_eq!(consumed, 2);
}

#[test]
fn test_nullable_string_empty() {
    let (result, consumed) = read_nullable_string(&[0x00, 0x00]);
    assert_eq!(result.unwrap().value().map(|s| s.as_str()), Some(""));
    assert_eq!(consumed, 2);
}

#[test]
fn test_nullable_string_invalid_length() {
    let (result, consumed) = read_nullable_string(&[0xff, 0xfe]);
    assert_eq!(result.err(), Some(KafkaRequestParseError::InvalidStringLength(-2)));
    assert_eq!(consumed, 0);
    let (result, _) = read_nullable_string(&[0x80, 0x00, 0x41]);
    assert_eq!(result.err(), Some(KafkaRequestParseError::InvalidStringLength(-32768)));
}

#[test]
fn test_nullable_string_present() {
    let (result, consumed) = read_nullable_string(&[0x00, 0x03, 0x61, 0xc3, 0xa9, 0x7a]);
    assert_eq!(result.unwrap().value().map(|s| s.as_str()), Some("a\u{e9}"));
    assert_eq!(consumed, 5);
}

#[test]
fn test_nullable_string_missing_data() {
    let (result, consumed) = read_nullable_string(&[0x00]);
    assert_eq!(result.err(), Some(KafkaRequestParseError::MissingData(2)));
    assert_eq!(consumed, 0);
    let (result, consumed) = read_nullable_string(&[0x00, 0x05, 0x61, 0x62]);
    assert_eq!(result.err(), Some(KafkaRequestParseError::MissingData(5)));
    assert_eq!(consumed, 0);
}

#[test]
fn test_nullable_string_invalid_utf8() {
    let (result, consumed) = read_nullable_string(&[0x00, 0x02, 0xc3, 0x28]);
    assert!(matches!(result, Err(KafkaRequestParseError::InvalidString(_))));
    assert_eq!(consumed, 0);
    let (result, _) = read_nullable_string(&[0x00, 0x01, 0xff, 0x00]);
    assert!(matches!(result, Err(KafkaRequestParseError::InvalidString(_))));
}

#[test]
fn test_nullable_string_encoding() {
    let absent = NullableString::new(None).unwrap();
    assert_eq!(absent.to_kafka_bytes(), vec![0xff, 0xff]);
    let empty = NullableString::new(Some(String::new())).unwrap();
    assert_eq!(empty.to_kafka_bytes(), vec![0x00, 0x00]);
    let present = NullableString::new(Some(String::from("a\u{e9}"))).unwrap();
    assert_eq!(present.to_kafka_bytes(), vec![0x00, 0x03, 0x61, 0xc3, 0xa9]);
}

#[test]
fn test_nullable_string_round_trip() {
    for text in ["", "kafka-cli", "\u{10348}\u{20ac}", "a b c"] {
        let mut bytes = NullableString::new(Some(String::from(text))).unwrap().to_kafka_bytes();
        let length = bytes.len();
        bytes.push(0x7f);
        let (result, consumed) = read_nullable_string(&bytes);
        assert_eq!(result.unwrap().value().map(|s| s.as_str()), Some(text));
        assert_eq!(consumed, length);
    }
}

#[test]
fn test_nullable_string_length_limit() {
    let longest = "a".repeat(32767);
    let made = NullableString::new(Some(longest.clone())).unwrap();
    let bytes = made.to_kafka_bytes();
    assert_eq!(bytes.len(), 32769);
    assert_eq!(&bytes[..2], &[0x7f, 0xff]);
    let (result, consumed) = read_nullable_string(&bytes);
    assert_eq!(result.unwrap().value(), Some(&longest));
    assert_eq!(consumed, 32769);
    assert!(NullableString::new(Some("a".repeat(32768))).is_none());
}

#[test]
fn test_api_key_table() {
    assert_eq!(ApiKey::try_from(0i16), Ok(ApiKey::Produce));
    assert_eq!(ApiKey::try_from(1i16), Ok(ApiKey::Fetch));
    assert_eq!(ApiKey::try_from(18i16), Ok(ApiKey::ApiVersions));
    assert_eq!(ApiKey::try_from(75i16), Ok(ApiKey::DescribeTopicPartitions));
    assert_eq!(ApiKey::try_from(2i16), Err(ParseApiKeyError::InvalidKey(2)));
    assert_eq!(ApiKey::try_from(-1i16), Err(ParseApiKeyError::InvalidKey(-1)));
    assert_eq!(ApiKey::Produce.to_kafka_bytes(), vec![0x00, 0x00]);
    assert_eq!(ApiKey::Fetch.to_kafka_bytes(), vec![0x00, 0x01]);
    assert_eq!(ApiKey::ApiVersions.to_kafka_bytes(), vec![0x00, 0x12]);
    assert_eq!(ApiKey::DescribeTopicPartitions.to_kafka_bytes(), vec![0x00, 0x4b]);
}

#[test]
fn test_api_key_read() {
    let bytes = [0x00, 0x4b, 0x00, 0x13, 0x00];
    let mut reader = ByteReader::new(&bytes);
    assert_eq!(ApiKey::read_kafka_bytes(&mut reader), Ok(ApiKey::DescribeTopicPartitions));
    assert_eq!(
        ApiKey::read_kafka_bytes(&mut reader),
        Err(KafkaRequestParseError::InvalidApiKey(ParseApiKeyError::InvalidKey(19)))
    );
    assert_eq!(reader.position(), 2);
    assert_eq!(reader.read_bytes(2), Ok(vec![0x00, 0x13]));
    assert_eq!(
        ApiKey::read_kafka_bytes(&mut reader),
        Err(KafkaRequestParseError::MissingData(2))
    );
}

#[test]
fn test_correlation_id() {
    let id = CorrelationId::from(0x5da32c35);
    let copy = id;
    assert_eq!(id, copy);
    assert_ne!(id, CorrelationId::from(7));
    assert_eq!(id.to_kafka_bytes(), vec![0x5d, 0xa3, 0x2c, 0x35]);
    let bytes = [0x5d, 0xa3, 0x2c, 0x35];
    let mut reader = ByteReader::new(&bytes);
    assert_eq!(CorrelationId::read_kafka_bytes(&mut reader), Ok(id));
}

#[test]
fn test_sequence_count_encodings() {
    let items: Vec<i16> = vec![1, 2, 3];
    assert_eq!(
        sequence_to_kafka_bytes(items.clone(), CountEncoding::Int32),
        vec![0, 0, 0, 3, 0, 1, 0, 2, 0, 3]
    );
    assert_eq!(
        sequence_to_kafka_bytes(items.clone(), CountEncoding::CompactVarInt),
        vec![4, 0, 1, 0, 2, 0, 3]
    );
    assert_eq!(items.to_kafka_bytes(), vec![4, 0, 1, 0, 2, 0, 3]);
    let none: Vec<i32> = Vec::new();
    assert_eq!(sequence_to_kafka_bytes(none.clone(), CountEncoding::Int32), vec![0, 0, 0, 0]);
    assert_eq!(none.to_kafka_bytes(), vec![1]);
}

#[test]
fn test_sequence_with_long_count() {
    let items: Vec<u8> = vec![7; 127];
    let bytes = items.to_kafka_bytes();
    assert_eq!(bytes.len(), 2 + 127);
    assert_eq!(&bytes[..3], &[0x80, 0x01, 7]);
    let nested: Vec<Vec<u8>> = vec![vec![1], vec![], vec![2, 3]];
    assert_eq!(nested.to_kafka_bytes(), vec![4, 2, 1, 1, 3, 2, 3]);
}

#[test]
fn test_api_version_info_encoding() {
    let info = ApiVersionInfo { api_key: ApiKey::ApiVersions, min_version: 0, max_version: 4 };
    assert_eq!(info.to_kafka_bytes(), vec![0x00, 0x12, 0x00, 0x00, 0x00, 0x04, 0x00]);
    let table = vec![info, ApiVersionInfo { api_key: ApiKey::Fetch, min_version: 1, max_version: 16 }];
    assert_eq!(
        sequence_to_kafka_bytes(table, CountEncoding::Int32),
        vec![0, 0, 0, 2, 0x00, 0x12, 0, 0, 0, 4, 0, 0x00, 0x01, 0, 1, 0, 16, 0]
    );
}

#[test]
fn test_response_message_size() {
    for length in [0usize, 1, 2, 255, 256, 65_536, 70_000] {
        let payload: Vec<u8> = vec![0xab; length];
        let message = to_response_message(payload.clone());
        // a vector of bytes is encoded as a sequence: its count, then its bytes
        let encoded = payload.to_kafka_bytes();
        assert_eq!(message.len(), 4 + encoded.len());
        let size = i32::from_be_bytes([message[0], message[1], message[2], message[3]]);
        assert_eq!(size as usize, encoded.len());
        assert_eq!(&message[4..], &encoded[..]);
    }
    assert_eq!(to_response_message(7i16), vec![0, 0, 0, 2, 0, 7]);
    assert_eq!(to_response_message(0u8), vec![0, 0, 0, 1, 0]);
}

#[test]
fn test_bare_response_header() {
    assert_eq!(KafkaResponse::new().to_bytes(), vec![0, 0, 0, 0, 0, 0, 0, 7]);
}

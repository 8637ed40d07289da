//! The request header and its parser.

use vstd::prelude::*;
use std::string::FromUtf8Error;
use crate::api::api_key::{ApiKey, ParseApiKeyError};
use crate::api::api_versions::ApiVersionsRequest;
use crate::api::correlation_id::CorrelationId;
use crate::serialisation::from_kafka_bytes::{reads_as, ByteReader, ReadKafkaBytes};
use crate::serialisation::nullable_string::NullableString;

verus! {

/// `FromUtf8Error` of std: what `String::from_utf8` says of bytes that are not
/// UTF-8. It is carried along and never looked into.
#[verifier::external_type_specification]
#[verifier::external_body]
pub struct ExFromUtf8Error(FromUtf8Error);

/// Why bytes are no request.
#[derive(Debug, PartialEq, Eq)]
pub enum KafkaRequestParseError {
    /// The bytes ended before a field was complete; holds the number of bytes
    /// that the field asked for.
    MissingData(usize),
    /// The API key is not in the table.
    InvalidApiKey(ParseApiKeyError),
    /// A string announced a length below -1.
    InvalidStringLength(i32),
    /// The bytes of a string are not UTF-8.
    InvalidString(FromUtf8Error),
    /// A slice of fixed size could not be converted. The length checks that
    /// go before every conversion leave no input that gives this.
    ByteParseError,
}

/// A parse error as contracts speak of it: the variant and its plain values.
pub enum ParseFailure {
    MissingData(usize),
    InvalidApiKey(i16),
    InvalidStringLength(i32),
    InvalidString,
    ByteParseError,
}

impl View for KafkaRequestParseError {
    type V = ParseFailure;

    open spec fn view(&self) -> ParseFailure {
        match self {
            KafkaRequestParseError::MissingData(expected) => ParseFailure::MissingData(*expected),
            KafkaRequestParseError::InvalidApiKey(ParseApiKeyError::InvalidKey(code)) =>
                ParseFailure::InvalidApiKey(*code),
            KafkaRequestParseError::InvalidStringLength(length) =>
                ParseFailure::InvalidStringLength(*length),
            KafkaRequestParseError::InvalidString(_) => ParseFailure::InvalidString,
            KafkaRequestParseError::ByteParseError => ParseFailure::ByteParseError,
        }
    }
}

/// One request: its header and, not looked into, its body.
#[derive(Debug)]
pub struct KafkaRequest {
    message_size: i32,
    api_key: ApiKey,
    api_version: i16,
    correlation_id: CorrelationId,
    client_id: NullableString,
    api_request: ApiRequest,
}

/// The part of a request that belongs to the API that it addresses.
#[derive(Debug)]
pub enum ApiRequest {
    ApiVersions(ApiVersionsRequest),
}

impl ApiRequest {
    /// The bytes of the body.
    pub open spec fn body(self) -> Seq<u8> {
        match self {
            ApiRequest::ApiVersions(request) => request.body@,
        }
    }
}

/// What a request holds.
pub struct KafkaRequestView {
    pub message_size: i32,
    pub api_key: ApiKey,
    pub api_version: i16,
    pub correlation_id: i32,
    pub client_id: Option<Seq<char>>,
    pub body: Seq<u8>,
}

impl View for KafkaRequest {
    type V = KafkaRequestView;

    closed spec fn view(&self) -> KafkaRequestView {
        KafkaRequestView {
            message_size: self.message_size,
            api_key: self.api_key,
            api_version: self.api_version,
            correlation_id: self.correlation_id@,
            client_id: self.client_id@,
            body: self.api_request.body(),
        }
    }
}

/// The length of the body of a message of `message_size` bytes whose header
/// takes up `header_len` of them. A size that the header alone exceeds leaves
/// no body.
pub open spec fn body_length(message_size: i32, header_len: nat) -> nat {
    if message_size > header_len {
        (message_size - header_len) as nat
    } else {
        0
    }
}

impl KafkaRequest {
    /// What parsing a request from the front of `input` gives: the request
    /// and the number of bytes that it takes up, or the reason why there is
    /// none. The fields come in this order: message size (4 bytes), API key
    /// (2), API version (2), correlation id (4), client id (a nullable
    /// string), one byte of tag buffer, and the body, which fills the message
    /// up to its size. The size counts every byte behind its own four. The
    /// first field that cannot be read decides the failure.
    pub open spec fn parsed(input: Seq<u8>) -> Result<(KafkaRequestView, nat), ParseFailure> {
        match i32::decoded(input) {
            Err(failure) => Err(failure),
            Ok((message_size, _)) => match ApiKey::decoded(input.skip(4)) {
                Err(failure) => Err(failure),
                Ok((api_key, _)) => match i16::decoded(input.skip(6)) {
                    Err(failure) => Err(failure),
                    Ok((api_version, _)) => match CorrelationId::decoded(input.skip(8)) {
                        Err(failure) => Err(failure),
                        Ok((correlation_id, _)) => match NullableString::decoded(input.skip(12)) {
                            Err(failure) => Err(failure),
                            Ok((client_id, client_id_len)) => match u8::decoded(
                                input.skip(12 + client_id_len as int),
                            ) {
                                Err(failure) => Err(failure),
                                Ok(_) => {
                                    let header_end = 13 + client_id_len;
                                    let body_len = body_length(
                                        message_size,
                                        (header_end - 4) as nat,
                                    );
                                    if input.len() - header_end < body_len {
                                        Err(ParseFailure::MissingData(body_len as usize))
                                    } else {
                                        Ok(
                                            (
                                                KafkaRequestView {
                                                    message_size,
                                                    api_key,
                                                    api_version,
                                                    correlation_id,
                                                    client_id,
                                                    body: input.subrange(
                                                        header_end as int,
                                                        (header_end + body_len) as int,
                                                    ),
                                                },
                                                header_end + body_len,
                                            ),
                                        )
                                    }
                                },
                            },
                        },
                    },
                },
            },
        }
    }

    /// The number of bytes that the message holds behind its size field.
    pub fn message_size(&self) -> (size: i32)
        ensures
            size == self@.message_size,
    {
        self.message_size
    }

    /// The API that the request addresses.
    pub fn api_key(&self) -> (key: ApiKey)
        ensures
            key == self@.api_key,
    {
        self.api_key
    }

    /// The name that the client gave itself.
    pub fn client_id(&self) -> (client_id: &NullableString)
        ensures
            client_id@ == self@.client_id,
    {
        &self.client_id
    }

    /// The part of the request that belongs to its API.
    pub fn api_request(&self) -> (api_request: &ApiRequest)
        ensures
            api_request.body() == self@.body,
    {
        &self.api_request
    }

    /// The version of the API that the request asks for.
    pub fn api_version(&self) -> (version: i16)
        ensures
            version == self@.api_version,
    {
        self.api_version
    }

    /// The token that the response has to carry back.
    pub fn correlation_id(&self) -> (id: CorrelationId)
        ensures
            id@ == self@.correlation_id,
    {
        self.correlation_id
    }

    /// Parses one request at the cursor. Either the whole request is returned
    /// and the cursor stands behind it, or an error is returned and the cursor
    /// stands where it stood.
    pub fn try_read_from(reader: &mut ByteReader) -> (result: Result<Self, KafkaRequestParseError>)
        requires
            old(reader).wf(),
        ensures
            reads_as(
                *old(reader),
                *final(reader),
                result,
                KafkaRequest::parsed(old(reader).remaining()),
            ),
    {
        let start: usize = reader.position();
        let ghost input = reader.remaining();
        let message_size: i32 = match i32::read_kafka_bytes(reader) {
            Ok(value) => value,
            Err(error) => {
                return Err(error);
            },
        };
        assert(reader.remaining() =~= input.skip(4));
        let api_key: ApiKey = match ApiKey::read_kafka_bytes(reader) {
            Ok(value) => value,
            Err(error) => {
                reader.rewind(start);
                return Err(error);
            },
        };
        assert(reader.remaining() =~= input.skip(6));
        let api_version: i16 = match i16::read_kafka_bytes(reader) {
            Ok(value) => value,
            Err(error) => {
                reader.rewind(start);
                return Err(error);
            },
        };
        assert(reader.remaining() =~= input.skip(8));
        let correlation_id: CorrelationId = match CorrelationId::read_kafka_bytes(reader) {
            Ok(value) => value,
            Err(error) => {
                reader.rewind(start);
                return Err(error);
            },
        };
        assert(reader.remaining() =~= input.skip(12));
        let client_id: NullableString = match NullableString::read_kafka_bytes(reader) {
            Ok(value) => value,
            Err(error) => {
                reader.rewind(start);
                return Err(error);
            },
        };
        let ghost client_id_len = reader.consumed() - start - 12;
        assert(reader.remaining() =~= input.skip(12 + client_id_len));
        // the tag buffer is read and dropped
        match u8::read_kafka_bytes(reader) {
            Ok(_) => {},
            Err(error) => {
                reader.rewind(start);
                return Err(error);
            },
        }
        assert(reader.remaining() =~= input.skip(13 + client_id_len));
        let header_len: usize = reader.position() - start - 4;
        let body_len: usize = if message_size > 0 && message_size as usize > header_len {
            message_size as usize - header_len
        } else {
            0
        };
        let body: Vec<u8> = match reader.read_bytes(body_len) {
            Ok(bytes) => bytes,
            Err(error) => {
                reader.rewind(start);
                return Err(error);
            },
        };
        assert(body@ =~= input.subrange(13 + client_id_len, 13 + client_id_len + body_len));
        let api_request: ApiRequest = ApiRequest::ApiVersions(ApiVersionsRequest { body });
        Ok(KafkaRequest {
            message_size,
            api_key,
            api_version,
            correlation_id,
            client_id,
            api_request,
        })
    }
}

/// The number of bytes that the field asks for in which a request cut off
/// after `kept` bytes, fewer than 12, ends.
pub open spec fn width_of_field_at(kept: nat) -> usize {
    if kept < 4 {
        4
    } else if kept < 8 {
        2
    } else {
        4
    }
}

/// A request that parses, cut off after fewer than 12 bytes, fails as
/// missing data, with the width of the field that the cut falls in.
pub proof fn lemma_truncated_request_misses_data(input: Seq<u8>, kept: nat)
    requires
        KafkaRequest::parsed(input) is Ok,
        kept < 12,
    ensures
        KafkaRequest::parsed(input.take(kept as int)) == Err::<
            (KafkaRequestView, nat),
            ParseFailure,
        >(ParseFailure::MissingData(width_of_field_at(kept))),
{
    let cut = input.take(kept as int);
    assert(input.len() >= 12);
    if kept >= 4 {
        assert(cut[0] == input[0] && cut[1] == input[1] && cut[2] == input[2] && cut[3]
            == input[3]);
    }
    if kept >= 6 {
        assert(cut.skip(4)[0] == input.skip(4)[0]);
        assert(cut.skip(4)[1] == input.skip(4)[1]);
    }
    if kept >= 8 {
        assert(cut.skip(6).len() >= 2);
        assert(cut.skip(8).len() < 4);
    }
}

/// No input makes the parser fail with `ByteParseError`.
pub proof fn lemma_never_byte_parse_error(input: Seq<u8>)
    ensures
        !(KafkaRequest::parsed(input) matches Err(ParseFailure::ByteParseError)),
{
}

/// A request that parses lies within the input. Its size field counts every
/// byte behind the field itself, the body included; only a size that the
/// header alone exceeds is not met, and such a request has no body.
pub proof fn lemma_parsed_request_extent(input: Seq<u8>)
    ensures
        KafkaRequest::parsed(input) matches Ok((request, taken)) ==> {
            &&& 15 <= taken <= input.len()
            &&& request.body == input.subrange(taken - request.body.len(), taken as int)
            &&& if request.body.len() > 0 {
                taken == 4 + request.message_size
            } else {
                taken >= 4 + request.message_size
            }
        },
{
}

/// A string that was read, or a failure other than missing data, stays what
/// it is whatever bytes follow.
proof fn lemma_nullable_string_is_settled(input: Seq<u8>, more: Seq<u8>)
    ensures
        !(NullableString::decoded(input) matches Err(ParseFailure::MissingData(_)))
            ==> NullableString::decoded(input + more) == NullableString::decoded(input),
{
    let longer = input + more;
    if input.len() >= 2 {
        assert(longer[0] == input[0] && longer[1] == input[1]);
        let length = i16::decoded(input)->Ok_0.0;
        if length >= 0 && input.len() - 2 >= length {
            assert(longer.subrange(2, 2 + length) =~= input.subrange(2, 2 + length));
        }
    }
}

/// What the parser made of the bytes received so far stays what it is
/// whatever bytes arrive later, unless it was missing data: a request that
/// parsed is the same request, and bytes that are no request never become one.
pub proof fn lemma_parsed_is_settled(input: Seq<u8>, more: Seq<u8>)
    ensures
        !(KafkaRequest::parsed(input) matches Err(ParseFailure::MissingData(_)))
            ==> KafkaRequest::parsed(input + more) == KafkaRequest::parsed(input),
{
    let longer = input + more;
    if input.len() >= 4 {
        assert(longer[0] == input[0] && longer[1] == input[1] && longer[2] == input[2] && longer[3]
            == input[3]);
        if input.len() >= 6 {
            assert(longer.skip(4) =~= input.skip(4) + more);
            assert(longer.skip(4)[0] == input.skip(4)[0] && longer.skip(4)[1] == input.skip(4)[1]);
            if ApiKey::decoded(input.skip(4)) is Ok && input.len() >= 8 {
                assert(longer.skip(6) =~= input.skip(6) + more);
                assert(longer.skip(6)[0] == input.skip(6)[0] && longer.skip(6)[1] == input.skip(
                    6,
                )[1]);
                if input.len() >= 12 {
                    assert(longer.skip(8) =~= input.skip(8) + more);
                    assert(longer.skip(8)[0] == input.skip(8)[0] && longer.skip(8)[1]
                        == input.skip(8)[1] && longer.skip(8)[2] == input.skip(8)[2]
                        && longer.skip(8)[3] == input.skip(8)[3]);
                    assert(longer.skip(12) =~= input.skip(12) + more);
                    lemma_nullable_string_is_settled(input.skip(12), more);
                    match NullableString::decoded(input.skip(12)) {
                        Ok((_, client_id_len)) => {
                            let tag_at = 12 + client_id_len as int;
                            if input.len() > tag_at {
                                assert(longer.skip(tag_at) =~= input.skip(tag_at) + more);
                                assert(longer.skip(tag_at)[0] == input.skip(tag_at)[0]);
                                let header_end = tag_at + 1;
                                let message_size = i32::decoded(input)->Ok_0.0;
                                let body_len = body_length(message_size, (header_end - 4) as nat);
                                if input.len() - header_end >= body_len {
                                    assert(longer.subrange(header_end, header_end + body_len)
                                        =~= input.subrange(header_end, header_end + body_len));
                                }
                            }
                        },
                        Err(_) => {},
                    }
                }
            }
        }
    }
}

} // verus!

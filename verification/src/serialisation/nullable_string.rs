//! Strings that may be absent.

use vstd::prelude::*;
use vstd::utf8::{decode_utf8, encode_utf8, valid_utf8};
use std::string::FromUtf8Error;
use crate::api::request::{KafkaRequestParseError, ParseFailure};
use crate::serialisation::from_kafka_bytes::{ByteReader, ReadKafkaBytes};
use crate::serialisation::ToKafkaBytes;

verus! {

/// `String::from_utf8` of std. It succeeds on exactly the byte vectors that
/// are valid UTF-8, and the string then holds the characters that the bytes
/// encode. Nothing is claimed of what the error holds.
pub assume_specification[ String::from_utf8 ](vec: Vec<u8>) -> (result: Result<
    String,
    FromUtf8Error,
>)
    ensures
        result is Ok <==> valid_utf8(vec@),
        result matches Ok(string) ==> string@ == decode_utf8(vec@),
;

/// Represents a nullable string read from the Kafka Protocol
#[derive(Debug)]
pub struct NullableString(Option<String>);

impl View for NullableString {
    type V = Option<Seq<char>>;

    closed spec fn view(&self) -> Option<Seq<char>> {
        match self.0 {
            Some(string) => Some(string@),
            None => None,
        }
    }
}

/// The fields of a string in the wire format: the length in bytes as a 16-bit
/// integer and then the UTF-8 bytes, or the length -1 alone for no string.
pub open spec fn nullable_string_bytes(value: Option<Seq<char>>) -> Seq<u8> {
    match value {
        Some(chars) => (encode_utf8(chars).len() as i16).kafka_bytes() + encode_utf8(chars),
        None => (-1i16).kafka_bytes(),
    }
}

impl NullableString {
    /// The length of a string fits its length field.
    #[verifier::type_invariant]
    spec fn fits(self) -> bool {
        match self.0 {
            Some(string) => encode_utf8(string@).len() <= i16::MAX,
            None => true,
        }
    }

    /// The UTF-8 encoding of a string is at most `i16::MAX` bytes long.
    pub open spec fn fits_length_field(value: Option<Seq<char>>) -> bool {
        match value {
            Some(chars) => encode_utf8(chars).len() <= i16::MAX,
            None => true,
        }
    }

    /// The string `value`, or no string; `None` where the string is too long
    /// for the length field.
    pub fn new(value: Option<String>) -> (result: Option<NullableString>)
        ensures
            match value {
                Some(string) => Self::fits_length_field(Some(string@)) <==> result is Some,
                None => result is Some,
            },
            result matches Some(made) ==> made@ == match value {
                Some(string) => Some(string@),
                None => None,
            },
    {
        match value {
            Some(string) => {
                if string.as_str().as_bytes().len() <= 0x7fff {
                    Some(NullableString(Some(string)))
                } else {
                    None
                }
            },
            None => Some(NullableString(None)),
        }
    }

    /// The string, if there is one.
    pub fn value(&self) -> (value: Option<&String>)
        ensures
            match value {
                Some(string) => self@ == Some(string@),
                None => self@ is None,
            },
            Self::fits_length_field(self@),
    {
        proof {
            use_type_invariant(self);
        }
        match &self.0 {
            Some(string) => Some(string),
            None => None,
        }
    }
}

impl ReadKafkaBytes for NullableString {
    open spec fn decoded(input: Seq<u8>) -> Result<(Option<Seq<char>>, nat), ParseFailure> {
        match i16::decoded(input) {
            Err(failure) => Err(failure),
            Ok((length, _)) => if length == -1 {
                Ok((None, 2))
            } else if length < -1 {
                Err(ParseFailure::InvalidStringLength(length as i32))
            } else if input.len() - 2 < length {
                Err(ParseFailure::MissingData(length as usize))
            } else if !valid_utf8(input.subrange(2, 2 + length)) {
                Err(ParseFailure::InvalidString)
            } else {
                Ok((Some(decode_utf8(input.subrange(2, 2 + length))), (2 + length) as nat))
            },
        }
    }

    fn read_kafka_bytes(reader: &mut ByteReader) -> (result: Result<Self, KafkaRequestParseError>) {
        let start: usize = reader.position();
        let ghost input = reader.remaining();
        let length: i16 = match i16::read_kafka_bytes(reader) {
            Ok(length) => length,
            Err(error) => {
                return Err(error);
            },
        };
        if length == -1 {
            Ok(NullableString(None))
        } else if length < -1 {
            reader.rewind(start);
            Err(KafkaRequestParseError::InvalidStringLength(length as i32))
        } else {
            assert(reader.remaining() =~= input.skip(2));
            let string_bytes: Vec<u8> = match reader.read_bytes(length as usize) {
                Ok(bytes) => bytes,
                Err(error) => {
                    reader.rewind(start);
                    return Err(error);
                },
            };
            assert(string_bytes@ =~= input.subrange(2, 2 + length));
            match String::from_utf8(string_bytes) {
                Ok(string) => {
                    proof {
                        vstd::utf8::decode_utf8_encode_utf8(string_bytes@);
                    }
                    Ok(NullableString(Some(string)))
                },
                Err(error) => {
                    reader.rewind(start);
                    Err(KafkaRequestParseError::InvalidString(error))
                },
            }
        }
    }
}

impl ToKafkaBytes for NullableString {
    open spec fn kafka_bytes(self) -> Seq<u8> {
        nullable_string_bytes(self@)
    }

    fn to_kafka_bytes(self) -> (bytes: Vec<u8>) {
        proof {
            use_type_invariant(&self);
        }
        match self.0 {
            Some(string) => {
                let text: &[u8] = string.as_str().as_bytes();
                let length: i16 = text.len() as i16;
                let mut bytes: Vec<u8> = length.to_kafka_bytes();
                let ghost prefix = bytes@;
                let mut index: usize = 0;
                while index < text.len()
                    invariant
                        index <= text.len(),
                        bytes@ == prefix + text@.take(index as int),
                    decreases text.len() - index,
                {
                    bytes.push(text[index]);
                    index = index + 1;
                    assert(bytes@ =~= prefix + text@.take(index as int));
                }
                assert(text@.take(text.len() as int) =~= text@);
                bytes
            },
            None => {
                let absent: i16 = -1;
                absent.to_kafka_bytes()
            },
        }
    }
}

/// Reading undoes writing: a string, or its absence, is read back from its
/// bytes, which are taken whole and alone from the front of the input.
pub proof fn lemma_nullable_string_round_trip(value: Option<Seq<char>>, rest: Seq<u8>)
    requires
        NullableString::fits_length_field(value),
    ensures
        NullableString::decoded(nullable_string_bytes(value) + rest) == Ok::<
            (Option<Seq<char>>, nat),
            ParseFailure,
        >((value, nullable_string_bytes(value).len())),
{
    let input = nullable_string_bytes(value) + rest;
    match value {
        Some(chars) => {
            let text = encode_utf8(chars);
            vstd::utf8::encode_utf8_valid_utf8(chars);
            vstd::utf8::encode_utf8_decode_utf8(chars);
            assert(input.subrange(2, 2 + text.len() as int) =~= text);
        },
        None => {},
    }
}

} // verus!

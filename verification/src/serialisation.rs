//! Encoding of wire values to bytes, and the length-prefixed response envelope.

use vstd::prelude::*;
use crate::api::request::ParseFailure;
use crate::serialisation::from_kafka_bytes::ReadKafkaBytes;
use crate::serialisation::varint::{varint_encoding, VarInt};

pub mod from_kafka_bytes;
pub mod nullable_string;
pub mod varint;

verus! {

/// The unsigned 16-bit number that has the same bits as `v` in two's complement.
pub open spec fn bits_of_i16(v: i16) -> u16 {
    if v < 0 {
        (v + 0x1_0000) as u16
    } else {
        v as u16
    }
}

/// The unsigned 32-bit number that has the same bits as `v` in two's complement.
pub open spec fn bits_of_i32(v: i32) -> u32 {
    if v < 0 {
        (v + 0x1_0000_0000) as u32
    } else {
        v as u32
    }
}

/// The two bytes of `u`, most significant first.
pub open spec fn be_bytes_u16(u: u16) -> Seq<u8> {
    seq![(u / 0x100) as u8, (u % 0x100) as u8]
}

/// The four bytes of `u`, most significant first.
pub open spec fn be_bytes_u32(u: u32) -> Seq<u8> {
    seq![
        (u / 0x100_0000) as u8,
        (u / 0x1_0000 % 0x100) as u8,
        (u / 0x100 % 0x100) as u8,
        (u % 0x100) as u8,
    ]
}

/// A type with an encoding in the wire format.
pub trait ToKafkaBytes: Sized {
    /// The bytes that stand for this value on the wire.
    spec fn kafka_bytes(self) -> Seq<u8>;

    /// Encodes the value.
    fn to_kafka_bytes(self) -> (bytes: Vec<u8>)
        ensures
            bytes@ == self.kafka_bytes(),
    ;
}

impl ToKafkaBytes for u8 {
    open spec fn kafka_bytes(self) -> Seq<u8> {
        seq![self]
    }

    fn to_kafka_bytes(self) -> (bytes: Vec<u8>) {
        let mut bytes: Vec<u8> = Vec::new();
        bytes.push(self);
        assert(bytes@ =~= seq![self]);
        bytes
    }
}

impl ToKafkaBytes for i16 {
    open spec fn kafka_bytes(self) -> Seq<u8> {
        be_bytes_u16(bits_of_i16(self))
    }

    fn to_kafka_bytes(self) -> (bytes: Vec<u8>) {
        let bits: u16 = if self < 0 {
            (self as i32 + 0x1_0000) as u16
        } else {
            self as u16
        };
        let mut bytes: Vec<u8> = Vec::new();
        bytes.push((bits / 0x100) as u8);
        bytes.push((bits % 0x100) as u8);
        assert(bytes@ =~= be_bytes_u16(bits));
        bytes
    }
}

/// Encodes `bits` as four bytes, most significant first.
pub fn u32_to_be_bytes(bits: u32) -> (bytes: Vec<u8>)
    ensures
        bytes@ == be_bytes_u32(bits),
{
    let mut bytes: Vec<u8> = Vec::new();
    bytes.push((bits / 0x100_0000) as u8);
    bytes.push((bits / 0x1_0000 % 0x100) as u8);
    bytes.push((bits / 0x100 % 0x100) as u8);
    bytes.push((bits % 0x100) as u8);
    assert(bytes@ =~= be_bytes_u32(bits));
    bytes
}

impl ToKafkaBytes for i32 {
    open spec fn kafka_bytes(self) -> Seq<u8> {
        be_bytes_u32(bits_of_i32(self))
    }

    fn to_kafka_bytes(self) -> (bytes: Vec<u8>) {
        let bits: u32 = if self < 0 {
            (self as i64 + 0x1_0000_0000) as u32
        } else {
            self as u32
        };
        u32_to_be_bytes(bits)
    }
}

/// How the number of items of a sequence is written in front of them.
#[derive(Debug, Clone, Copy, PartialEq, Eq, Structural)]
pub enum CountEncoding {
    /// The number itself, as a 32-bit integer.
    Int32,
    /// The number plus one, as a variable-length integer.
    CompactVarInt,
}

/// The bytes that announce `count` items. A count that does not fit in 32
/// bits loses its bits from bit 32 up.
pub open spec fn count_bytes(encoding: CountEncoding, count: nat) -> Seq<u8> {
    match encoding {
        CountEncoding::Int32 => be_bytes_u32((count % 0x1_0000_0000) as u32),
        CountEncoding::CompactVarInt => varint_encoding((count + 1) % 0x1_0000_0000),
    }
}

/// The encodings of `items`, one after the other.
pub open spec fn concat_bytes<T: ToKafkaBytes>(items: Seq<T>) -> Seq<u8>
    decreases items.len(),
{
    if items.len() == 0 {
        Seq::empty()
    } else {
        concat_bytes(items.drop_last()) + items.last().kafka_bytes()
    }
}

/// The encoding of a sequence: the count of its items, then each item.
pub open spec fn sequence_bytes<T: ToKafkaBytes>(encoding: CountEncoding, items: Seq<T>) -> Seq<
    u8,
> {
    count_bytes(encoding, items.len()) + concat_bytes(items)
}

/// Encodes `items` as a sequence whose count is written as `encoding` says.
pub fn sequence_to_kafka_bytes<T: ToKafkaBytes>(items: Vec<T>, encoding: CountEncoding) -> (bytes:
    Vec<u8>)
    ensures
        bytes@ == sequence_bytes(encoding, items@),
{
    let length: usize = items.len();
    let mut bytes: Vec<u8> = match encoding {
        CountEncoding::Int32 => u32_to_be_bytes((length as u64 % 0x1_0000_0000) as u32),
        CountEncoding::CompactVarInt => VarInt::new(
            ((length as u128 + 1) % 0x1_0000_0000) as u32,
        ).to_kafka_bytes(),
    };
    let ghost all = items@;
    let ghost count = bytes@;
    assert(all.take(0) =~= Seq::<T>::empty());
    for item in iter: items.into_iter()
        invariant
            iter.seq() == all,
            bytes@ == count + concat_bytes(all.take(iter.index())),
    {
        let ghost before = bytes@;
        let ghost index = iter.index();
        let mut encoded: Vec<u8> = item.to_kafka_bytes();
        bytes.append(&mut encoded);
        proof {
            let next = all.take(index + 1);
            assert(next.drop_last() =~= all.take(index));
            assert(next.last() == item);
            assert(bytes@ =~= count + concat_bytes(next));
        }
    }
    assert(all.take(all.len() as int) =~= all);
    bytes
}

impl<T: ToKafkaBytes> ToKafkaBytes for Vec<T> {
    open spec fn kafka_bytes(self) -> Seq<u8> {
        sequence_bytes(CountEncoding::CompactVarInt, self@)
    }

    // the count of the items, then each item
    fn to_kafka_bytes(self) -> (bytes: Vec<u8>) {
        sequence_to_kafka_bytes(self, CountEncoding::CompactVarInt)
    }
}

/// The envelope of a response: the length of `payload` as a 32-bit integer,
/// which does not count its own four bytes, then `payload`. A length that
/// does not fit in 32 bits loses its bits from bit 32 up.
pub open spec fn response_message(payload: Seq<u8>) -> Seq<u8> {
    be_bytes_u32((payload.len() % 0x1_0000_0000) as u32) + payload
}

/// Converts to bytes and adds the message size
pub fn to_response_message<T: ToKafkaBytes>(response: T) -> (message: Vec<u8>)
    ensures
        message@ == response_message(response.kafka_bytes()),
{
    let mut bytes: Vec<u8> = response.to_kafka_bytes();
    let size: u32 = (bytes.len() as u64 % 0x1_0000_0000) as u32;
    let mut message: Vec<u8> = u32_to_be_bytes(size);
    message.append(&mut bytes);
    message
}

/// An envelope is four bytes longer than its payload, and, for every payload
/// whose length a signed 32-bit integer can hold, it begins with that length.
pub proof fn lemma_response_message_size(payload: Seq<u8>)
    ensures
        response_message(payload).len() == 4 + payload.len(),
        payload.len() <= i32::MAX ==> i32::decoded(response_message(payload)) == Ok::<
            (i32, nat),
            ParseFailure,
        >((payload.len() as i32, 4)),
        response_message(payload).skip(4) == payload,
{
    assert(response_message(payload).skip(4) =~= payload);
}

} // verus!

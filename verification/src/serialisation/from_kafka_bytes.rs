//! Decoding of wire values from bytes.

use vstd::prelude::*;
use crate::api::request::{KafkaRequestParseError, ParseFailure};
use crate::serialisation::{be_bytes_u16, be_bytes_u32, bits_of_i16, bits_of_i32};

verus! {

/// A cursor over the bytes that a connection has delivered.
pub struct ByteReader<'a> {
    bytes: &'a [u8],
    position: usize,
}

impl<'a> ByteReader<'a> {
    /// All the bytes that the reader was made over.
    pub closed spec fn source(&self) -> Seq<u8> {
        self.bytes@
    }

    /// The number of bytes that were read so far.
    pub closed spec fn consumed(&self) -> nat {
        self.position as nat
    }

    /// The cursor stands inside the bytes.
    pub open spec fn wf(&self) -> bool {
        self.consumed() <= self.source().len()
    }

    /// The bytes that are still to be read.
    pub open spec fn remaining(&self) -> Seq<u8> {
        self.source().skip(self.consumed() as int)
    }

    /// A reader at the start of `bytes`.
    pub fn new(bytes: &'a [u8]) -> (reader: Self)
        ensures
            reader.wf(),
            reader.source() == bytes@,
            reader.consumed() == 0,
    {
        ByteReader { bytes, position: 0 }
    }

    /// The number of bytes that were read so far.
    pub fn position(&self) -> (position: usize)
        ensures
            position == self.consumed(),
    {
        self.position
    }

    /// Puts the cursor back to an earlier position.
    pub(crate) fn rewind(&mut self, position: usize)
        requires
            position <= old(self).consumed(),
        ensures
            final(self).source() == old(self).source(),
            final(self).consumed() == position,
    {
        self.position = position;
    }

    /// Reads the next `count` bytes. Where fewer are left, nothing is read and
    /// the error holds `count`.
    pub fn read_bytes(&mut self, count: usize) -> (result: Result<Vec<u8>, KafkaRequestParseError>)
        requires
            old(self).wf(),
        ensures
            final(self).wf(),
            final(self).source() == old(self).source(),
            count <= old(self).remaining().len() ==> result is Ok && result->Ok_0@ == old(
                self,
            ).remaining().take(count as int) && final(self).consumed() == old(self).consumed()
                + count,
            count > old(self).remaining().len() ==> result is Err && result->Err_0@
                == ParseFailure::MissingData(count) && final(self).consumed() == old(
                self,
            ).consumed(),
    {
        if count > self.bytes.len() - self.position {
            return Err(KafkaRequestParseError::MissingData(count));
        }
        let mut taken: Vec<u8> = Vec::new();
        let start: usize = self.position;
        let mut index: usize = 0;
        while index < count
            invariant
                start + count <= self.bytes.len(),
                index <= count,
                taken@ == self.bytes@.subrange(start as int, start + index),
            decreases count - index,
        {
            taken.push(self.bytes[start + index]);
            index = index + 1;
            assert(taken@ =~= self.bytes@.subrange(start as int, start + index));
        }
        self.position = start + count;
        assert(taken@ =~= old(self).remaining().take(count as int));
        Ok(taken)
    }
}

/// Whether `result`, and where it left the reader, is what `decoded` says
/// of the bytes that were still to be read: on success the value, with the
/// cursor behind its bytes; on failure the reason, with the cursor where it was.
pub open spec fn reads_as<T: View>(
    before: ByteReader,
    after: ByteReader,
    result: Result<T, KafkaRequestParseError>,
    decoded: Result<(T::V, nat), ParseFailure>,
) -> bool {
    &&& after.wf()
    &&& after.source() == before.source()
    &&& match result {
        Ok(value) => decoded == Ok::<(T::V, nat), ParseFailure>(
            (value@, (after.consumed() - before.consumed()) as nat),
        ) && after.consumed() >= before.consumed(),
        Err(error) => decoded == Err::<(T::V, nat), ParseFailure>(error@) && after.consumed()
            == before.consumed(),
    }
}

/// A type that can be read from its bytes in the wire format.
pub trait ReadKafkaBytes: Sized + View {
    /// What reading from the front of `input` gives: the value and the number
    /// of bytes that it takes up, or the reason why there is none.
    spec fn decoded(input: Seq<u8>) -> Result<(Self::V, nat), ParseFailure>;

    /// Reads one value at the cursor.
    fn read_kafka_bytes(reader: &mut ByteReader) -> (result: Result<Self, KafkaRequestParseError>)
        requires
            old(reader).wf(),
        ensures
            reads_as(*old(reader), *final(reader), result, Self::decoded(old(reader).remaining())),
    ;
}

/// The signed number whose bits in two's complement are those of `bits`.
pub open spec fn i16_of_bits(bits: u16) -> i16 {
    if bits >= 0x8000 {
        (bits - 0x1_0000) as i16
    } else {
        bits as i16
    }
}

/// The signed number whose bits in two's complement are those of `bits`.
pub open spec fn i32_of_bits(bits: u32) -> i32 {
    if bits >= 0x8000_0000 {
        (bits - 0x1_0000_0000) as i32
    } else {
        bits as i32
    }
}

/// The number that two bytes, most significant first, stand for.
pub open spec fn be_value_u16(bytes: Seq<u8>) -> u16 {
    (bytes[0] * 0x100 + bytes[1]) as u16
}

/// The number that four bytes, most significant first, stand for.
pub open spec fn be_value_u32(bytes: Seq<u8>) -> u32 {
    (bytes[0] * 0x100_0000 + bytes[1] * 0x1_0000 + bytes[2] * 0x100 + bytes[3]) as u32
}

impl ReadKafkaBytes for u8 {
    open spec fn decoded(input: Seq<u8>) -> Result<(u8, nat), ParseFailure> {
        if input.len() < 1 {
            Err(ParseFailure::MissingData(1))
        } else {
            Ok((input[0], 1))
        }
    }

    fn read_kafka_bytes(reader: &mut ByteReader) -> (result: Result<Self, KafkaRequestParseError>) {
        match reader.read_bytes(1) {
            Ok(bytes) => Ok(bytes[0]),
            Err(error) => Err(error),
        }
    }
}

impl ReadKafkaBytes for i16 {
    open spec fn decoded(input: Seq<u8>) -> Result<(i16, nat), ParseFailure> {
        if input.len() < 2 {
            Err(ParseFailure::MissingData(2))
        } else {
            Ok((i16_of_bits(be_value_u16(input)), 2))
        }
    }

    fn read_kafka_bytes(reader: &mut ByteReader) -> (result: Result<Self, KafkaRequestParseError>) {
        match reader.read_bytes(2) {
            Ok(bytes) => {
                let bits: u16 = bytes[0] as u16 * 0x100 + bytes[1] as u16;
                if bits >= 0x8000 {
                    Ok((bits as i32 - 0x1_0000) as i16)
                } else {
                    Ok(bits as i16)
                }
            },
            Err(error) => Err(error),
        }
    }
}

impl ReadKafkaBytes for i32 {
    open spec fn decoded(input: Seq<u8>) -> Result<(i32, nat), ParseFailure> {
        if input.len() < 4 {
            Err(ParseFailure::MissingData(4))
        } else {
            Ok((i32_of_bits(be_value_u32(input)), 4))
        }
    }

    fn read_kafka_bytes(reader: &mut ByteReader) -> (result: Result<Self, KafkaRequestParseError>) {
        match reader.read_bytes(4) {
            Ok(bytes) => {
                let bits: u32 = bytes[0] as u32 * 0x100_0000 + bytes[1] as u32 * 0x1_0000
                    + bytes[2] as u32 * 0x100 + bytes[3] as u32;
                if bits >= 0x8000_0000 {
                    Ok((bits as i64 - 0x1_0000_0000) as i32)
                } else {
                    Ok(bits as i32)
                }
            },
            Err(error) => Err(error),
        }
    }
}

/// Decoding a 16-bit integer undoes its encoding, whatever bytes follow.
pub proof fn lemma_i16_round_trip(value: i16, rest: Seq<u8>)
    ensures
        i16::decoded(be_bytes_u16(bits_of_i16(value)) + rest) == Ok::<(i16, nat), ParseFailure>(
            (value, 2),
        ),
{
}

/// Decoding a 32-bit integer undoes its encoding, whatever bytes follow.
pub proof fn lemma_i32_round_trip(value: i32, rest: Seq<u8>)
    ensures
        i32::decoded(be_bytes_u32(bits_of_i32(value)) + rest) == Ok::<(i32, nat), ParseFailure>(
            (value, 4),
        ),
{
}

} // verus!

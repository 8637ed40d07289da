//! Variable-length encoding of unsigned 32-bit integers.

use vstd::prelude::*;
use vstd::arithmetic::power2::{lemma2_to64, pow2};
use crate::api::request::{KafkaRequestParseError, ParseFailure};
use crate::serialisation::from_kafka_bytes::{ByteReader, ReadKafkaBytes};
use crate::serialisation::{be_bytes_u32, u32_to_be_bytes, ToKafkaBytes};

verus! {

/// An unsigned 32-bit integer that travels in the variable-length encoding.
pub struct VarInt(u32);

impl View for VarInt {
    type V = u32;

    closed spec fn view(&self) -> u32 {
        self.0
    }
}

/// The encoding of `x`: its 7-bit groups, least significant group first, each
/// but the last with the continuation bit set. No group of zeros is added at
/// the end, so zero is the single byte 0.
pub open spec fn varint_encoding(x: nat) -> Seq<u8>
    decreases x,
{
    if x < 0x80 {
        seq![x as u8]
    } else {
        seq![(0x80 + x % 0x80) as u8] + varint_encoding(x / 0x80)
    }
}

/// The number that `bytes` stand for: the low 7 bits of the byte at index `i`
/// weigh `2^(7 * i)`. Continuation bits are not looked at.
pub open spec fn varint_value(bytes: Seq<u8>) -> nat
    decreases bytes.len(),
{
    if bytes.len() == 0 {
        0
    } else {
        (bytes[0] % 0x80) as nat + 0x80 * varint_value(bytes.drop_first())
    }
}

/// The length of the shortest prefix of `input` that ends in a byte without
/// continuation bit, if there is such a byte.
pub open spec fn varint_end(input: Seq<u8>) -> Option<nat>
    decreases input.len(),
{
    if input.len() == 0 {
        None
    } else if input[0] < 0x80 {
        Some(1)
    } else {
        match varint_end(input.drop_first()) {
            Some(end) => Some(end + 1),
            None => None,
        }
    }
}

/// The number of bytes of `x` up to its highest byte that is not zero.
pub open spec fn byte_count(x: u32) -> u8 {
    if x < 0x100 {
        1
    } else if x < 0x1_0000 {
        2
    } else if x < 0x100_0000 {
        3
    } else {
        4
    }
}

/// Byte `i` of `x`, counted from the least significant one.
pub open spec fn le_byte(x: u32, i: u8) -> u8 {
    if i == 0 {
        (x & 0xff) as u8
    } else if i == 1 {
        ((x >> 8) & 0xff) as u8
    } else if i == 2 {
        ((x >> 16) & 0xff) as u8
    } else {
        ((x >> 24) & 0xff) as u8
    }
}

/// What is left of `x` once its `i` lowest 7-bit groups are taken away.
pub open spec fn groups_from(x: u32, i: u8) -> u32 {
    if i == 0 {
        x
    } else if i == 1 {
        x >> 7
    } else if i == 2 {
        x >> 14
    } else if i == 3 {
        x >> 21
    } else {
        x >> 28
    }
}

/// The bits of byte `i - 1` of `x` that belong to group `i`: the `i` highest
/// bits of that byte, right-aligned.
pub open spec fn carried(x: u32, i: u8) -> u8 {
    if i == 0 {
        0
    } else if i == 1 {
        ((x >> 7) & 0x01) as u8
    } else if i == 2 {
        ((x >> 14) & 0x03) as u8
    } else if i == 3 {
        ((x >> 21) & 0x07) as u8
    } else {
        ((x >> 28) & 0x0f) as u8
    }
}

/// The mask whose `n` highest bits are set.
pub open spec fn top_bits_mask(n: u8) -> u8 {
    if n >= 8 {
        0xff
    } else {
        !(0xffu8 >> n)
    }
}

/// The low byte of `x` moved up by `offset` bits inside a 16-bit register: the
/// bits that stay in the byte.
pub open spec fn shifted_low(x: u8, offset: u8) -> u8 {
    ((((x as u16) << offset) & 0xff) as u8)
}

/// The high byte of `x` moved up by `offset` bits inside a 16-bit register: the
/// bits that left the byte at the top.
pub open spec fn shifted_high(x: u8, offset: u8) -> u8 {
    ((((x as u16) << offset) >> 8) as u8)
}

/// Whether the continuation bit of `byte` is set: the integer goes on in the
/// next byte.
pub fn has_continuation(byte: u8) -> (set: bool)
    ensures
        set == (byte >= 0x80),
{
    assert((0x80u8 & byte != 0) == (byte >= 0x80)) by (bit_vector);
    0x80 & byte != 0
}

/// The byte whose `n` highest bits are set and whose other bits are clear.
pub fn mask_top_bits(n: u8) -> (mask: u8)
    requires
        n <= 8,
    ensures
        mask == top_bits_mask(n),
        mask == 0x100 - pow2((8 - n) as nat),
{
    proof {
        lemma_top_bits_mask_value(n);
    }
    let mut result: u8 = 0;
    let mut done: u8 = 0;
    assert(top_bits_mask(0) == 0) by (bit_vector);
    while done < n
        invariant
            done <= n <= 8,
            result == top_bits_mask(done),
        decreases n - done,
    {
        assert((top_bits_mask(done) >> 1u8) | 0x80 == top_bits_mask((done + 1) as u8))
            by (bit_vector)
            requires
                done < 8,
        ;
        result = result >> 1;
        result = result | 0x80;
        done = done + 1;
    }
    result
}

/// Shifts the bits of `x` up by `offset`; the bits that leave the byte at the
/// top are returned, right-aligned, as the second component.
pub fn shift_bits_up(x: u8, offset: u8) -> (parts: (u8, u8))
    requires
        offset <= 8,
    ensures
        parts.0 == shifted_low(x, offset),
        parts.1 == shifted_high(x, offset),
        parts.0 + 0x100 * parts.1 == x * pow2(offset as nat),
{
    proof {
        lemma_shifted_up_value(x, offset);
    }
    if offset == 0 {
        assert(shifted_low(x, 0) == x && shifted_high(x, 0) == 0) by (bit_vector);
        (x, 0)
    } else if offset == 8 {
        assert(shifted_low(x, 8) == 0 && shifted_high(x, 8) == x) by (bit_vector);
        (0, x)
    } else {
        let mask: u8 = mask_top_bits(offset);
        let top_bits: u8 = x & mask;
        assert(shifted_low(x, offset) == x << offset && shifted_high(x, offset) == (x
            & top_bits_mask(offset)) >> ((8 - offset) as u8)) by (bit_vector)
            requires
                0 < offset < 8,
        ;
        (x << offset, top_bits >> (8 - offset))
    }
}

/// In numbers, the mask of the `n` highest bits is `256 - 2^(8 - n)`.
pub proof fn lemma_top_bits_mask_value(n: u8)
    requires
        n <= 8,
    ensures
        top_bits_mask(n) == 0x100 - pow2((8 - n) as nat),
{
    lemma2_to64();
    assert(top_bits_mask(0) == 0x00 && top_bits_mask(1) == 0x80 && top_bits_mask(2) == 0xc0
        && top_bits_mask(3) == 0xe0 && top_bits_mask(4) == 0xf0 && top_bits_mask(5) == 0xf8
        && top_bits_mask(6) == 0xfc && top_bits_mask(7) == 0xfe && top_bits_mask(8) == 0xff)
        by (bit_vector);
}

/// In numbers, to shift `x` up by `offset` bits is to multiply it by
/// `2^offset`: the bits that stay are the low byte of the product and the
/// bits that left are its high byte.
pub proof fn lemma_shifted_up_value(x: u8, offset: u8)
    requires
        offset <= 8,
    ensures
        shifted_low(x, offset) + 0x100 * shifted_high(x, offset) == x * pow2(offset as nat),
{
    lemma2_to64();
    assert(shifted_low(x, 0) + 0x100 * shifted_high(x, 0) == x * 1) by (bit_vector);
    assert(shifted_low(x, 1) + 0x100 * shifted_high(x, 1) == x * 2) by (bit_vector);
    assert(shifted_low(x, 2) + 0x100 * shifted_high(x, 2) == x * 4) by (bit_vector);
    assert(shifted_low(x, 3) + 0x100 * shifted_high(x, 3) == x * 8) by (bit_vector);
    assert(shifted_low(x, 4) + 0x100 * shifted_high(x, 4) == x * 16) by (bit_vector);
    assert(shifted_low(x, 5) + 0x100 * shifted_high(x, 5) == x * 32) by (bit_vector);
    assert(shifted_low(x, 6) + 0x100 * shifted_high(x, 6) == x * 64) by (bit_vector);
    assert(shifted_low(x, 7) + 0x100 * shifted_high(x, 7) == x * 128) by (bit_vector);
    assert(shifted_low(x, 8) + 0x100 * shifted_high(x, 8) == x * 256) by (bit_vector);
}

/// What one round of the encoder finds at byte `i` of `x`, given the bits
/// carried into it.
spec fn round_facts(x: u32, i: u8) -> bool {
    let b = le_byte(x, i);
    let rest = groups_from(x, i);
    let high = shifted_high(b, i);
    let byte = shifted_low(b, i) | carried(x, i);
    let next = carried(x, (i + 1) as u8);
    &&& byte == (rest & 0xff) as u8
    &&& high <= 0x0f
    &&& (high << 1u8) == 2 * high
    &&& next == 2 * high + (if byte >= 0x80 { 1int } else { 0int })
    &&& groups_from(x, (i + 1) as u8) == rest >> 7
    &&& i + 1 < byte_count(x) ==> rest >= 0x80
    &&& i + 1 >= byte_count(x) ==> groups_from(x, (i + 1) as u8) == next
}

/// Every round finds what `round_facts` says.
proof fn lemma_round(x: u32, i: u8)
    requires
        i < 4,
    ensures
        round_facts(x, i),
{
    if i == 0 {
        assert(round_facts(x, 0)) by (bit_vector);
    } else if i == 1 {
        assert(round_facts(x, 1)) by (bit_vector);
    } else if i == 2 {
        assert(round_facts(x, 2)) by (bit_vector);
    } else {
        assert(round_facts(x, 3)) by (bit_vector);
    }
}

/// How one group of `rest` reads in arithmetic.
proof fn lemma_group(rest: u32)
    ensures
        rest >> 7 == rest / 0x80,
        (((rest & 0xff) as u8) | 0x80) == (0x80 + rest % 0x80) as u8,
        rest < 0x80 ==> (rest & 0xff) as u8 == rest,
        rest >= 0x80 && ((rest & 0xff) as u8) >= 0x80 ==> (((rest & 0xff) as u8) | 0x80) == (rest
            & 0xff) as u8,
{
    assert(rest >> 7 == rest / 0x80) by (bit_vector);
    assert((((rest & 0xff) as u8) | 0x80) == (0x80 + rest % 0x80) as u8) by (bit_vector);
    assert(rest < 0x80 ==> (rest & 0xff) as u8 == rest) by (bit_vector);
    assert(((rest & 0xff) as u8) >= 0x80 ==> (((rest & 0xff) as u8) | 0x80) == (rest & 0xff) as u8)
        by (bit_vector);
}

/// The bytes of `x` from the least significant one up to the highest that is
/// not zero.
fn significant_bytes(x: u32) -> (bytes: Vec<u8>)
    requires
        x != 0,
    ensures
        bytes.len() == byte_count(x),
        forall|i: int| 0 <= i < bytes.len() ==> bytes[i] == le_byte(x, i as u8),
{
    let be: Vec<u8> = u32_to_be_bytes(x);
    assert(be@ == be_bytes_u32(x));
    assert(be@[3] == le_byte(x, 0) && be@[2] == le_byte(x, 1) && be@[1] == le_byte(x, 2) && be@[0]
        == le_byte(x, 3)) by {
        assert((x % 0x100) as u8 == le_byte(x, 0)) by (bit_vector);
        assert((x / 0x100 % 0x100) as u8 == le_byte(x, 1)) by (bit_vector);
        assert((x / 0x1_0000 % 0x100) as u8 == le_byte(x, 2)) by (bit_vector);
        assert((x / 0x100_0000) as u8 == le_byte(x, 3)) by (bit_vector);
    }
    let mut first: usize = 0;
    while first < 4 && be[first] == 0
        invariant
            be@ == be_bytes_u32(x),
            x != 0,
            first <= 4,
            forall|j: int| 0 <= j < first ==> be@[j] == 0,
        decreases 4 - first,
    {
        first = first + 1;
    }
    assert(first < 4);
    assert(byte_count(x) == 4 - first);
    let mut bytes: Vec<u8> = Vec::new();
    let mut k: usize = 4;
    while k > first
        invariant
            be@.len() == 4,
            first <= k <= 4,
            bytes.len() == 4 - k,
            forall|i: int| 0 <= i < bytes.len() ==> bytes[i] == be@[3 - i],
        decreases k,
    {
        k = k - 1;
        bytes.push(be[k]);
    }
    bytes
}

/// Regroups the bytes of `x` into its 7-bit groups. Byte `i` moves up by `i`
/// bits to make room for the bits carried out of the byte below it; what
/// leaves it at the top is carried into the next group.
fn encode_bytes(bytes: &Vec<u8>, Ghost(x): Ghost<u32>) -> (encoded: Vec<u8>)
    requires
        x != 0,
        bytes.len() == byte_count(x),
        forall|i: int| 0 <= i < bytes.len() ==> bytes[i] == le_byte(x, i as u8),
    ensures
        encoded@ == varint_encoding(x as nat),
{
    let num_bytes: usize = bytes.len();
    let mut encoded: Vec<u8> = Vec::new();
    let mut carry: u8 = 0;
    let mut offset: u8 = 0;
    while (offset as usize) < num_bytes
        invariant
            num_bytes == byte_count(x),
            num_bytes == bytes.len(),
            offset <= num_bytes,
            forall|i: int| 0 <= i < bytes.len() ==> bytes[i] == le_byte(x, i as u8),
            offset < num_bytes ==> {
                &&& carry == carried(x, offset)
                &&& varint_encoding(x as nat) == encoded@ + varint_encoding(
                    groups_from(x, offset) as nat,
                )
            },
            offset == num_bytes ==> {
                &&& carry < 0x80
                &&& carry == 0 ==> varint_encoding(x as nat) == encoded@
                &&& carry != 0 ==> varint_encoding(x as nat) == encoded@.push(carry)
            },
        decreases num_bytes - offset,
    {
        let ghost rest = groups_from(x, offset);
        let ghost before = encoded@;
        proof {
            lemma_round(x, offset);
            lemma_group(rest);
        }
        let (shifted, spill) = shift_bits_up(bytes[offset as usize], offset);
        let mut byte: u8 = shifted | carry;
        let mut new_carry: u8 = spill << 1;
        let is_last: bool = num_bytes - (offset as usize) == 1;
        if has_continuation(byte) {
            new_carry = new_carry + 1;
        } else if !is_last || new_carry != 0 {
            byte = byte | 0x80;
        }
        encoded.push(byte);
        proof {
            if rest >= 0x80 {
                assert(encoded@ + varint_encoding((rest >> 7) as nat) =~= before + varint_encoding(
                    rest as nat,
                ));
                if offset + 1 == num_bytes {
                    assert(varint_encoding(new_carry as nat) =~= seq![new_carry]);
                    assert(encoded@.push(new_carry) =~= encoded@ + seq![new_carry]);
                }
            } else {
                assert(encoded@ =~= before + varint_encoding(rest as nat));
            }
        }
        carry = new_carry;
        offset = offset + 1;
    }
    if carry != 0 {
        encoded.push(carry);
    }
    encoded
}

impl VarInt {
    /// The integer `x` as a value of the wire format.
    pub fn new(x: u32) -> (varint: VarInt)
        ensures
            varint@ == x,
    {
        VarInt(x)
    }

    /// Reads the integer that `bytes` stand for, whatever their continuation
    /// bits say. A number too large for 32 bits loses its bits from bit 32 up.
    pub fn from_bytes(bytes: &[u8]) -> (varint: VarInt)
        ensures
            varint@ == varint_value(bytes@) % 0x1_0000_0000,
    {
        let mut value: u64 = 0;
        let mut index: usize = bytes.len();
        assert(bytes@.subrange(index as int, bytes.len() as int) =~= Seq::<u8>::empty());
        while index > 0
            invariant
                index <= bytes.len(),
                value == varint_value(bytes@.subrange(index as int, bytes.len() as int))
                    % 0x1_0000_0000,
            decreases index,
        {
            index = index - 1;
            let group: u64 = (bytes[index] % 0x80) as u64;
            proof {
                let tail = bytes@.subrange(index as int, bytes.len() as int);
                assert(tail.drop_first() =~= bytes@.subrange(index + 1, bytes.len() as int));
                assert(tail[0] == bytes[index as int]);
            }
            value = (value * 0x80 + group) % 0x1_0000_0000;
        }
        assert(bytes@.subrange(0, bytes.len() as int) =~= bytes@);
        VarInt(value as u32)
    }

    /// The integer.
    pub fn value(&self) -> (x: u32)
        ensures
            x == self@,
    {
        self.0
    }
}

impl ToKafkaBytes for VarInt {
    open spec fn kafka_bytes(self) -> Seq<u8> {
        varint_encoding(self@ as nat)
    }

    fn to_kafka_bytes(self) -> (bytes: Vec<u8>) {
        if self.0 == 0 {
            let mut zero: Vec<u8> = Vec::new();
            zero.push(0);
            assert(zero@ =~= varint_encoding(0));
            return zero;
        }
        // the zero bytes at the top are left out, so that no empty group is encoded
        let bytes: Vec<u8> = significant_bytes(self.0);
        encode_bytes(&bytes, Ghost(self.0))
    }
}

/// Where every byte of `input` before index `last` has its continuation bit
/// set and the byte at `last` has not, the integer ends behind `last`.
proof fn lemma_end_found(input: Seq<u8>, last: int)
    requires
        0 <= last < input.len(),
        forall|j: int| 0 <= j < last ==> input[j] >= 0x80,
        input[last] < 0x80,
    ensures
        varint_end(input) == Some((last + 1) as nat),
    decreases last,
{
    if last > 0 {
        lemma_end_found(input.drop_first(), last - 1);
    }
}

/// Where every byte of `input` has its continuation bit set, no integer ends
/// in it.
proof fn lemma_end_missing(input: Seq<u8>)
    requires
        forall|j: int| 0 <= j < input.len() ==> input[j] >= 0x80,
    ensures
        varint_end(input) is None,
    decreases input.len(),
{
    if input.len() > 0 {
        lemma_end_missing(input.drop_first());
    }
}

impl ReadKafkaBytes for VarInt {
    open spec fn decoded(input: Seq<u8>) -> Result<(u32, nat), ParseFailure> {
        match varint_end(input) {
            Some(end) => Ok(
                ((varint_value(input.take(end as int)) % 0x1_0000_0000) as u32, end),
            ),
            None => Err(ParseFailure::MissingData(1)),
        }
    }

    fn read_kafka_bytes(reader: &mut ByteReader) -> (result: Result<Self, KafkaRequestParseError>) {
        let start: usize = reader.position();
        let ghost input = reader.remaining();
        // read all bytes in the varint
        let mut int_bytes: Vec<u8> = Vec::new();
        let mut more: bool = true;
        while more
            invariant
                reader.wf(),
                reader.source() == old(reader).source(),
                start == old(reader).consumed(),
                input == old(reader).remaining(),
                reader.consumed() == start + int_bytes.len(),
                int_bytes@ == input.take(int_bytes.len() as int),
                int_bytes.len() <= input.len(),
                more ==> forall|j: int| 0 <= j < int_bytes.len() ==> int_bytes[j] >= 0x80,
                !more ==> int_bytes.len() > 0 && int_bytes[int_bytes.len() - 1] < 0x80 && forall|
                    j: int,
                | 0 <= j < int_bytes.len() - 1 ==> int_bytes[j] >= 0x80,
            decreases input.len() - int_bytes.len() + (if more { 1int } else { 0int }),
        {
            let ghost rest = reader.remaining();
            assert(rest =~= input.skip(int_bytes.len() as int));
            match u8::read_kafka_bytes(reader) {
                Ok(byte) => {
                    int_bytes.push(byte);
                    more = has_continuation(byte);
                    assert(int_bytes@ =~= input.take(int_bytes.len() as int));
                },
                Err(error) => {
                    reader.rewind(start);
                    proof {
                        assert(int_bytes@ =~= input);
                        lemma_end_missing(input);
                    }
                    return Err(error);
                },
            }
        }
        proof {
            assert forall|j: int| 0 <= j < int_bytes.len() implies input[j] == int_bytes[j] by {
                assert(input.take(int_bytes.len() as int)[j] == input[j]);
            }
            lemma_end_found(input, int_bytes.len() - 1);
        }
        Ok(VarInt::from_bytes(int_bytes.as_slice()))
    }
}

/// The bytes of an encoding stand for the number that was encoded.
pub proof fn lemma_varint_value_of_encoding(x: nat)
    ensures
        varint_value(varint_encoding(x)) == x,
    decreases x,
{
    let encoding = varint_encoding(x);
    if x >= 0x80 {
        lemma_varint_value_of_encoding(x / 0x80);
        assert(encoding.drop_first() =~= varint_encoding(x / 0x80));
        assert(encoding[0] == (0x80 + x % 0x80) as u8);
        assert(encoding[0] % 0x80 == x % 0x80);
    } else {
        assert(encoding.drop_first() =~= Seq::<u8>::empty());
        assert(encoding[0] == x as u8);
        assert(varint_value(encoding.drop_first()) == 0);
    }
}

/// An encoding ends with its last byte and nowhere before, whatever bytes
/// follow it.
pub proof fn lemma_varint_end_of_encoding(x: nat, rest: Seq<u8>)
    ensures
        varint_end(varint_encoding(x) + rest) == Some(varint_encoding(x).len()),
    decreases x,
{
    let whole = varint_encoding(x) + rest;
    if x >= 0x80 {
        lemma_varint_end_of_encoding(x / 0x80, rest);
        assert(whole.drop_first() =~= varint_encoding(x / 0x80) + rest);
    }
}

/// Decoding undoes encoding: every 32-bit integer is read back from its
/// encoding, which is taken whole and alone from the front of the input.
pub proof fn lemma_varint_round_trip(x: u32, rest: Seq<u8>)
    ensures
        VarInt::decoded(varint_encoding(x as nat) + rest) == Ok::<(u32, nat), ParseFailure>(
            (x, varint_encoding(x as nat).len()),
        ),
        varint_value(varint_encoding(x as nat)) % 0x1_0000_0000 == x,
{
    let encoding = varint_encoding(x as nat);
    lemma_varint_end_of_encoding(x as nat, rest);
    lemma_varint_value_of_encoding(x as nat);
    assert((encoding + rest).take(encoding.len() as int) =~= encoding);
}

/// The number of binary digits of `x`; zero has none.
pub open spec fn bit_length(x: nat) -> nat
    decreases x,
{
    if x == 0 {
        0
    } else {
        1 + bit_length(x / 2)
    }
}

/// Taking seven binary digits away shortens a number of at least eight
/// digits by seven.
proof fn lemma_bit_length_group(x: nat)
    requires
        x >= 0x80,
    ensures
        bit_length(x) == 7 + bit_length(x / 0x80),
{
    reveal_with_fuel(bit_length, 8);
    assert(x / 2 / 2 / 2 / 2 / 2 / 2 / 2 == x / 0x80);
}

/// An encoding is as short as the integer allows: one byte for every seven
/// binary digits, the last group filled up, and one byte for zero.
pub proof fn lemma_varint_encoding_len(x: nat)
    ensures
        varint_encoding(x).len() == if x == 0 {
            1
        } else {
            (bit_length(x) + 6) / 7
        },
    decreases x,
{
    if x >= 0x80 {
        lemma_varint_encoding_len(x / 0x80);
        lemma_bit_length_group(x);
    } else {
        reveal_with_fuel(bit_length, 9);
    }
}

} // verus!

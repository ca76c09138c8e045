//! Numbers as bytes, least significant byte first.
use byteorder::{ByteOrder, LittleEndian};
use vstd::prelude::*;

verus! {

/// The number that the first four bytes of `bytes` spell, least significant
/// byte first.
pub open spec fn u32_from_le(bytes: Seq<u8>) -> u32 {
    (bytes[0] + 0x100 * bytes[1] + 0x1_0000 * bytes[2] + 0x100_0000 * bytes[3]) as u32
}

/// The four bytes of `value`, least significant first.
pub open spec fn u32_to_le(value: u32) -> Seq<u8> {
    seq![
        (value % 0x100) as u8,
        (value / 0x100 % 0x100) as u8,
        (value / 0x1_0000 % 0x100) as u8,
        (value / 0x100_0000) as u8,
    ]
}

/// `byteorder::LittleEndian::read_u32`. Trusted: the result is the number
/// that the first four bytes spell, least significant byte first.
#[verifier::external_body]
pub(crate) fn read_u32_le(bytes: &[u8]) -> (value: u32)
    requires
        bytes@.len() >= 4,
    ensures
        value == u32_from_le(bytes@),
{
    LittleEndian::read_u32(bytes)
}

/// `byteorder::LittleEndian::write_u32` into a fresh buffer of four bytes.
/// Trusted: the buffer then holds the bytes of `value`, least significant
/// first.
#[verifier::external_body]
pub(crate) fn write_u32_le(value: u32) -> (bytes: [u8; 4])
    ensures
        bytes@ == u32_to_le(value),
{
    let mut bytes = [0u8; 4];
    LittleEndian::write_u32(&mut bytes, value);
    bytes
}

/// Reading back the bytes of a number gives the number.
pub proof fn lemma_u32_le_round_trip(value: u32)
    ensures
        u32_to_le(value).len() == 4,
        u32_from_le(u32_to_le(value)) == value,
{
}

/// Writing the number that four bytes spell gives the four bytes.
pub proof fn lemma_u32_le_bytes_round_trip(bytes: Seq<u8>)
    requires
        bytes.len() == 4,
    ensures
        u32_to_le(u32_from_le(bytes)) == bytes,
{
    let b0 = bytes[0] as int;
    let b1 = bytes[1] as int;
    let b2 = bytes[2] as int;
    let b3 = bytes[3] as int;
    let value = b0 + 0x100 * b1 + 0x1_0000 * b2 + 0x100_0000 * b3;
    assert(value == u32_from_le(bytes));
    assert(value % 0x100 == b0);
    assert(value / 0x100 == b1 + 0x100 * b2 + 0x1_0000 * b3);
    assert(value / 0x1_0000 == b2 + 0x100 * b3);
    assert(value / 0x100_0000 == b3);
    assert(u32_to_le(u32_from_le(bytes)) =~= bytes);
}

/// Byte `index` of `value`, counted from the least significant.
pub open spec fn le_byte(value: u128, index: nat) -> u8 {
    ((value >> ((8 * index) as u128)) & 0xff) as u8
}

/// The sixteen bytes of `value`, least significant first.
pub open spec fn u128_to_le(value: u128) -> Seq<u8> {
    Seq::new(16, |i: int| le_byte(value, i as nat))
}

/// Writes `value` as sixteen bytes, least significant first.
pub fn u128_le_bytes(value: u128) -> (bytes: [u8; 16])
    ensures
        bytes@ == u128_to_le(value),
{
    let mut bytes = [0u8; 16];
    let mut i: usize = 0;
    while i < 16
        invariant
            i <= 16,
            forall|j: int| 0 <= j < i ==> bytes@[j] == le_byte(value, j as nat),
        decreases 16 - i,
    {
        bytes[i] = ((value >> (8 * i)) & 0xff) as u8;
        i = i + 1;
    }
    assert(bytes@ =~= u128_to_le(value));
    bytes
}

/// A 128-bit number made of two 32-bit numbers, `low` in bits 0 to 31 and
/// `high` in bits 64 to 95, is written as the bytes of `low`, four zeros, the
/// bytes of `high` and four more zeros.
pub proof fn lemma_u128_of_two_u32(low: u32, high: u32)
    ensures
        u128_to_le((low as u128) | ((high as u128) << 64)) == u32_to_le(low) + seq![
            0u8,
            0u8,
            0u8,
            0u8,
        ] + u32_to_le(high) + seq![0u8, 0u8, 0u8, 0u8],
{
    let v: u128 = (low as u128) | ((high as u128) << 64);
    assert(v == (low as u128) | ((high as u128) << 64) ==> {
        &&& ((v >> 0u128) & 0xff) as u8 == (low % 0x100) as u8
        &&& ((v >> 8u128) & 0xff) as u8 == (low / 0x100 % 0x100) as u8
        &&& ((v >> 16u128) & 0xff) as u8 == (low / 0x1_0000 % 0x100) as u8
        &&& ((v >> 24u128) & 0xff) as u8 == (low / 0x100_0000) as u8
        &&& ((v >> 32u128) & 0xff) as u8 == 0
        &&& ((v >> 40u128) & 0xff) as u8 == 0
        &&& ((v >> 48u128) & 0xff) as u8 == 0
        &&& ((v >> 56u128) & 0xff) as u8 == 0
        &&& ((v >> 64u128) & 0xff) as u8 == (high % 0x100) as u8
        &&& ((v >> 72u128) & 0xff) as u8 == (high / 0x100 % 0x100) as u8
        &&& ((v >> 80u128) & 0xff) as u8 == (high / 0x1_0000 % 0x100) as u8
        &&& ((v >> 88u128) & 0xff) as u8 == (high / 0x100_0000) as u8
        &&& ((v >> 96u128) & 0xff) as u8 == 0
        &&& ((v >> 104u128) & 0xff) as u8 == 0
        &&& ((v >> 112u128) & 0xff) as u8 == 0
        &&& ((v >> 120u128) & 0xff) as u8 == 0
    }) by (bit_vector);
    let bytes = u128_to_le(v);
    assert(bytes =~= u32_to_le(low) + seq![0u8, 0u8, 0u8, 0u8] + u32_to_le(high) + seq![
        0u8,
        0u8,
        0u8,
        0u8,
    ]);
}

} // verus!

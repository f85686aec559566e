//! Little-endian integers and packed flag bits read out of a byte buffer.
use vstd::prelude::*;

verus! {

/// The unsigned 16-bit little-endian integer stored at `b[at..at + 2]`.
pub open spec fn le16(b: Seq<u8>, at: int) -> int {
    b[at] as int + 256 * b[at + 1] as int
}

/// The unsigned 32-bit little-endian integer stored at `b[at..at + 4]`.
pub open spec fn le32(b: Seq<u8>, at: int) -> int {
    le16(b, at) + 65536 * le16(b, at + 2)
}

/// Bit `i` of the packed bit string `a`, the first bit of each byte being its high bit.
pub open spec fn packed_bit(a: Seq<u8>, i: int) -> bool {
    (a[i / 8] >> ((7 - i % 8) as u8)) & 1u8 == 1u8
}

/// Relies on byteorder's `LittleEndian::read_u16`, which reads the first two bytes of
/// the slice it is given, least significant first.
#[verifier::external_body]
pub(crate) fn read_u16_le(b: &[u8], at: usize) -> (r: u16)
    requires
        at + 2 <= b@.len(),
    ensures
        r as int == le16(b@, at as int),
{
    <byteorder::LittleEndian as byteorder::ByteOrder>::read_u16(&b[at..at + 2])
}

/// Relies on byteorder's `LittleEndian::read_u32`, which reads the first four bytes of
/// the slice it is given, least significant first.
#[verifier::external_body]
pub(crate) fn read_u32_le(b: &[u8], at: usize) -> (r: u32)
    requires
        at + 4 <= b@.len(),
    ensures
        r as int == le32(b@, at as int),
{
    <byteorder::LittleEndian as byteorder::ByteOrder>::read_u32(&b[at..at + 4])
}

/// Relies on bit_vec's `BitVec::from_bytes`, which makes eight bits of each byte, the
/// high bit first, and on its iterator, which yields them in order.
#[verifier::external_body]
pub(crate) fn unpack_bits(a: &[u8]) -> (r: Vec<bool>)
    requires
        a@.len() * 8 <= usize::MAX,
    ensures
        r@.len() == a@.len() * 8,
        forall|i: int| 0 <= i < r@.len() ==> #[trigger] r@[i] == packed_bit(a@, i),
{
    bit_vec::BitVec::from_bytes(a).iter().collect()
}

} // verus!

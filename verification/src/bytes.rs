//! Big-endian 16-bit values, as the chip stores every multi-byte register.

use vstd::prelude::*;

verus! {

/// The 16-bit value whose high byte is `hi` and whose low byte is `lo`.
pub open spec fn be16(hi: u8, lo: u8) -> u16 {
    (hi as int * 256 + lo as int) as u16
}

/// The value that the first two bytes of `bytes` hold in big-endian order.
pub open spec fn be16_of(bytes: Seq<u8>) -> u16
    recommends
        bytes.len() >= 2,
{
    be16(bytes[0], bytes[1])
}

/// The two bytes of `value`, high byte first.
pub open spec fn be16_bytes(value: u16) -> Seq<u8> {
    seq![(value / 256) as u8, (value % 256) as u8]
}

/// Splits a 16-bit value into its big-endian bytes.
pub fn u16_to_be(value: u16) -> (bytes: [u8; 2])
    ensures
        bytes@ == be16_bytes(value),
{
    let hi: u8 = (value / 256) as u8;
    let lo: u8 = (value % 256) as u8;
    let bytes: [u8; 2] = [hi, lo];
    assert(bytes@ =~= be16_bytes(value));
    bytes
}

/// Joins two big-endian bytes into the 16-bit value they hold.
pub fn u16_from_be(bytes: [u8; 2]) -> (value: u16)
    ensures
        value == be16_of(bytes@),
{
    let hi: u16 = bytes[0] as u16;
    let lo: u16 = bytes[1] as u16;
    hi * 256 + lo
}

/// Encoding and decoding are inverse to each other: a value survives the trip
/// through its two bytes, and two bytes survive the trip through their value.
pub proof fn lemma_be16_round_trip(value: u16, hi: u8, lo: u8)
    ensures
        be16_bytes(value).len() == 2,
        be16_of(be16_bytes(value)) == value,
        be16_bytes(be16(hi, lo)) == seq![hi, lo],
{
    assert(be16_bytes(be16(hi, lo)) =~= seq![hi, lo]);
}

} // verus!

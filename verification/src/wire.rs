//! Big-endian 16-bit integers on the wire.

use byteorder::{BigEndian, ByteOrder};
use vstd::prelude::*;

verus! {

/// The 16-bit value whose big-endian encoding is `hi`, `lo`.
pub open spec fn be16(hi: u8, lo: u8) -> u16 {
    (hi as int * 256 + lo as int) as u16
}

/// The most significant byte of `n`.
pub open spec fn hi_byte(n: u16) -> u8 {
    (n as int / 256) as u8
}

/// The least significant byte of `n`.
pub open spec fn lo_byte(n: u16) -> u8 {
    (n as int % 256) as u8
}

/// The two bytes that encode `n` in network byte order.
pub open spec fn be16_bytes(n: u16) -> Seq<u8> {
    seq![hi_byte(n), lo_byte(n)]
}

/// Splitting a value into its two bytes and joining them again gives the value back.
pub proof fn lemma_be16_of_bytes(n: u16)
    ensures
        be16(hi_byte(n), lo_byte(n)) == n,
{
}

/// Joining two bytes and splitting the value again gives the bytes back.
pub proof fn lemma_bytes_of_be16(hi: u8, lo: u8)
    ensures
        hi_byte(be16(hi, lo)) == hi,
        lo_byte(be16(hi, lo)) == lo,
{
}

/// Calls `byteorder::BigEndian::read_u16`, which reads the first two bytes of
/// `bytes` as a big-endian integer and panics on a shorter slice.
#[verifier::external_body]
pub(crate) fn read_u16_be(bytes: &[u8]) -> (r: u16)
    requires
        bytes@.len() >= 2,
    ensures
        r == be16(bytes@[0], bytes@[1]),
{
    BigEndian::read_u16(bytes)
}

/// Calls `byteorder::BigEndian::write_u16` on a two-byte buffer, which stores
/// `n` there in big-endian order.
#[verifier::external_body]
pub(crate) fn u16_be_bytes(n: u16) -> (r: [u8; 2])
    ensures
        r@ == be16_bytes(n),
{
    let mut out = [0u8; 2];
    BigEndian::write_u16(&mut out, n);
    out
}

} // verus!

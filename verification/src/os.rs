//! Conversions between host byte order and network (big-endian) byte order.
use vstd::prelude::*;
use vstd::endian::{endianness, Endian};

verus! {

/// The value of `x` with its two bytes swapped.
pub open spec fn swap16(x: u16) -> u16 {
    (((x & 0xff) << 8) | (x >> 8)) as u16
}

/// The value of `x` with its four bytes reversed.
pub open spec fn swap32(x: u32) -> u32 {
    (((x & 0xff) << 24) | (((x >> 8) & 0xff) << 16) | (((x >> 16) & 0xff) << 8) | (x >> 24)) as u32
}

/// The value that `x` takes when its native representation is read as big-endian,
/// which is also the value whose native representation is the big-endian one of `x`.
pub open spec fn be16(x: u16) -> u16 {
    match endianness() {
        Endian::Big => x,
        Endian::Little => swap16(x),
    }
}

/// Four-byte analogue of [`be16`].
pub open spec fn be32(x: u32) -> u32 {
    match endianness() {
        Endian::Big => x,
        Endian::Little => swap32(x),
    }
}

/// `u16::from_be`: on a big-endian machine the identity, elsewhere a byte swap.
#[verifier::external_body]
fn u16_from_be(x: u16) -> (r: u16)
    ensures
        r == be16(x),
{
    u16::from_be(x)
}

/// `u32::from_be`: on a big-endian machine the identity, elsewhere a byte swap.
#[verifier::external_body]
fn u32_from_be(x: u32) -> (r: u32)
    ensures
        r == be32(x),
{
    u32::from_be(x)
}

/// `u16::to_be`: on a big-endian machine the identity, elsewhere a byte swap.
#[verifier::external_body]
fn u16_to_be(x: u16) -> (r: u16)
    ensures
        r == be16(x),
{
    x.to_be()
}

/// `u32::to_be`: on a big-endian machine the identity, elsewhere a byte swap.
#[verifier::external_body]
fn u32_to_be(x: u32) -> (r: u32)
    ensures
        r == be32(x),
{
    x.to_be()
}

/// Network to host byte order, 32 bits.
pub fn ntohl(netlong: u32) -> (r: u32)
    ensures
        r == be32(netlong),
{
    u32_from_be(netlong)
}

/// Network to host byte order, 16 bits.
pub fn ntohs(netshort: u16) -> (r: u16)
    ensures
        r == be16(netshort),
{
    u16_from_be(netshort)
}

/// Host to network byte order, 32 bits.
pub fn htonl(hostlong: u32) -> (r: u32)
    ensures
        r == be32(hostlong),
{
    u32_to_be(hostlong)
}

/// Host to network byte order, 16 bits.
pub fn htons(hostshort: u16) -> (r: u16)
    ensures
        r == be16(hostshort),
{
    u16_to_be(hostshort)
}

/// Swapping the bytes of a 16-bit value twice gives it back.
pub proof fn lemma_swap16_involutive(x: u16)
    ensures
        swap16(swap16(x)) == x,
{
    let y = swap16(x);
    let z = swap16(y);
    assert(z == x) by (bit_vector)
        requires
            y == (((x & 0xff) << 8) | (x >> 8)) as u16,
            z == (((y & 0xff) << 8) | (y >> 8)) as u16,
    ;
}

/// Reversing the bytes of a 32-bit value twice gives it back.
pub proof fn lemma_swap32_involutive(x: u32)
    ensures
        swap32(swap32(x)) == x,
{
    let y = swap32(x);
    let z = swap32(y);
    assert(z == x) by (bit_vector)
        requires
            y == (((x & 0xff) << 24) | (((x >> 8) & 0xff) << 16) | (((x >> 16) & 0xff) << 8) | (x
                >> 24)) as u32,
            z == (((y & 0xff) << 24) | (((y >> 8) & 0xff) << 16) | (((y >> 16) & 0xff) << 8) | (y
                >> 24)) as u32,
    ;
}

/// Converting a 16-bit value to network order and back gives it back, on every machine.
pub proof fn law_ntohs_htons(x: u16)
    ensures
        be16(be16(x)) == x,
{
    lemma_swap16_involutive(x);
}

/// Converting a 32-bit value to network order and back gives it back, on every machine.
pub proof fn law_ntohl_htonl(x: u32)
    ensures
        be32(be32(x)) == x,
{
    lemma_swap32_involutive(x);
}

} // verus!

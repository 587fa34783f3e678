//! Little-endian integers, read and written by the `byteorder` crate.

use byteorder::{ByteOrder, LittleEndian};
use vstd::prelude::*;

verus! {

/// The two bytes of a 16-bit number, low byte first.
pub open spec fn u16_le(n: u16) -> Seq<u8> {
    seq![(n % 256) as u8, (n / 256) as u8]
}

/// The four bytes of a 32-bit number, low byte first.
pub open spec fn u32_le(n: u32) -> Seq<u8> {
    seq![
        (n % 256) as u8,
        ((n / 256) % 256) as u8,
        ((n / 65536) % 256) as u8,
        (n / 16777216) as u8,
    ]
}

/// The 16-bit number whose two bytes, low byte first, stand at `pos`.
pub open spec fn u16_at(b: Seq<u8>, pos: int) -> u16 {
    (b[pos] + 256 * b[pos + 1]) as u16
}

/// The 32-bit number whose four bytes, low byte first, stand at `pos`.
pub open spec fn u32_at(b: Seq<u8>, pos: int) -> u32 {
    (b[pos] + 256 * b[pos + 1] + 65536 * b[pos + 2] + 16777216 * b[pos + 3]) as u32
}

/// The 32 bits of a signed number in two's complement.
pub open spec fn i32_bits(n: i32) -> u32 {
    if n >= 0 {
        n as u32
    } else {
        (n + 0x1_0000_0000) as u32
    }
}

/// The signed number that 32 bits stand for in two's complement.
pub open spec fn bits_i32(bits: u32) -> i32 {
    if bits < 0x8000_0000 {
        bits as i32
    } else {
        (bits - 0x1_0000_0000) as i32
    }
}

/// `LittleEndian::read_u16` of byteorder: the number that the first two
/// bytes of `buf` stand for, low byte first. It panics on a shorter `buf`.
#[verifier::external_body]
pub(crate) fn le_read_u16(buf: &[u8]) -> (r: u16)
    requires
        buf@.len() >= 2,
    ensures
        r == u16_at(buf@, 0),
{
    LittleEndian::read_u16(buf)
}

/// `LittleEndian::read_u32` of byteorder: the number that the first four
/// bytes of `buf` stand for, low byte first. It panics on a shorter `buf`.
#[verifier::external_body]
pub(crate) fn le_read_u32(buf: &[u8]) -> (r: u32)
    requires
        buf@.len() >= 4,
    ensures
        r == u32_at(buf@, 0),
{
    LittleEndian::read_u32(buf)
}

/// `LittleEndian::read_i32` of byteorder: the first four bytes of `buf`,
/// low byte first, taken as a number in two's complement. It panics on a
/// shorter `buf`.
#[verifier::external_body]
pub(crate) fn le_read_i32(buf: &[u8]) -> (r: i32)
    requires
        buf@.len() >= 4,
    ensures
        r == bits_i32(u32_at(buf@, 0)),
{
    LittleEndian::read_i32(buf)
}

/// `LittleEndian::write_u16` of byteorder, on a buffer of two bytes: it
/// fills the buffer with the bytes of `n`, low byte first.
#[verifier::external_body]
pub(crate) fn le_write_u16(n: u16) -> (r: [u8; 2])
    ensures
        r@ == u16_le(n),
{
    let mut buf = [0u8; 2];
    LittleEndian::write_u16(&mut buf, n);
    buf
}

/// `LittleEndian::write_u32` of byteorder, on a buffer of four bytes: it
/// fills the buffer with the bytes of `n`, low byte first.
#[verifier::external_body]
pub(crate) fn le_write_u32(n: u32) -> (r: [u8; 4])
    ensures
        r@ == u32_le(n),
{
    let mut buf = [0u8; 4];
    LittleEndian::write_u32(&mut buf, n);
    buf
}

/// `LittleEndian::write_i32` of byteorder, on a buffer of four bytes: it
/// fills the buffer with the bytes of `n` in two's complement, low byte
/// first.
#[verifier::external_body]
pub(crate) fn le_write_i32(n: i32) -> (r: [u8; 4])
    ensures
        r@ == u32_le(i32_bits(n)),
{
    let mut buf = [0u8; 4];
    LittleEndian::write_i32(&mut buf, n);
    buf
}

/// Writing the number that two bytes stand for gives the two bytes again.
pub proof fn lemma_u16_bytes_round_trip(b: Seq<u8>, pos: int)
    requires
        0 <= pos,
        pos + 2 <= b.len(),
    ensures
        u16_le(u16_at(b, pos)) == b.subrange(pos, pos + 2),
{
    let n = b[pos] + 256 * b[pos + 1];
    assert(n % 256 == b[pos]);
    assert(n / 256 == b[pos + 1]);
    assert(u16_le(u16_at(b, pos)) =~= b.subrange(pos, pos + 2));
}

/// Writing the number that four bytes stand for gives the four bytes again.
pub proof fn lemma_u32_bytes_round_trip(b: Seq<u8>, pos: int)
    requires
        0 <= pos,
        pos + 4 <= b.len(),
    ensures
        u32_le(u32_at(b, pos)) == b.subrange(pos, pos + 4),
{
    let b0 = b[pos] as int;
    let b1 = b[pos + 1] as int;
    let b2 = b[pos + 2] as int;
    let b3 = b[pos + 3] as int;
    let n = b0 + 256 * b1 + 65536 * b2 + 16777216 * b3;
    let m1 = b1 + 256 * b2 + 65536 * b3;
    let m2 = b2 + 256 * b3;
    assert(n == 256 * m1 + b0);
    assert(n / 256 == m1 && n % 256 == b0);
    assert(m1 == 256 * m2 + b1);
    assert(m1 % 256 == b1);
    assert(n == 65536 * m2 + (b0 + 256 * b1));
    assert(n / 65536 == m2);
    assert(m2 % 256 == b2);
    assert(n == 16777216 * b3 + (b0 + 256 * b1 + 65536 * b2));
    assert(n / 16777216 == b3);
    assert(u32_at(b, pos) == n);
    assert(u32_le(u32_at(b, pos)) =~= b.subrange(pos, pos + 4));
}

} // verus!

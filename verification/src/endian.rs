//! Byte order of the fixed-width integers of a message.

use vstd::prelude::*;
use byteorder::ByteOrder;

verus! {

/// The byte order that a message declares in its first byte.
#[derive(Debug, Clone, Copy, PartialEq, Eq, Structural)]
pub enum Endian {
    /// Least significant byte first (`l`).
    Little,
    /// Most significant byte first (`B`).
    Big,
}

/// The number that four bytes spell, least significant byte first.
pub open spec fn le_u32(b: Seq<u8>) -> int {
    b[0] as int + 0x100 * (b[1] as int) + 0x1_0000 * (b[2] as int) + 0x100_0000 * (b[3] as int)
}

/// The number that four bytes spell, most significant byte first.
pub open spec fn be_u32(b: Seq<u8>) -> int {
    b[3] as int + 0x100 * (b[2] as int) + 0x1_0000 * (b[1] as int) + 0x100_0000 * (b[0] as int)
}

/// The number that the first four bytes of `b` spell in byte order `e`.
pub open spec fn u32_value(b: Seq<u8>, e: Endian) -> int {
    match e {
        Endian::Little => le_u32(b),
        Endian::Big => be_u32(b),
    }
}

/// The four bytes of `n`, least significant first.
pub open spec fn le_bytes(n: int) -> Seq<u8> {
    seq![
        (n % 0x100) as u8,
        (n / 0x100 % 0x100) as u8,
        (n / 0x1_0000 % 0x100) as u8,
        (n / 0x100_0000 % 0x100) as u8,
    ]
}

/// The four bytes of `n` in byte order `e`.
pub open spec fn u32_bytes(n: int, e: Endian) -> Seq<u8> {
    match e {
        Endian::Little => le_bytes(n),
        Endian::Big => le_bytes(n).reverse(),
    }
}

/// Reading back what was written gives the number that was written.
pub proof fn lemma_u32_roundtrip(n: int, e: Endian)
    requires
        0 <= n < 0x1_0000_0000,
    ensures
        u32_bytes(n, e).len() == 4,
        u32_value(u32_bytes(n, e), e) == n,
{
    let b = le_bytes(n);
    assert(b.len() == 4);
    assert(b.reverse().len() == 4);
    assert(b.reverse()[0] == b[3]);
    assert(b.reverse()[1] == b[2]);
    assert(b.reverse()[2] == b[1]);
    assert(b.reverse()[3] == b[0]);
    assert(n / 0x100_0000 < 0x100);
}

/// Reads four bytes with `byteorder::LittleEndian::read_u32`, which takes
/// the first four bytes of the buffer as a number, least significant byte
/// first, and panics on a shorter buffer.
#[verifier::external_body]
fn read_u32_le(buf: &[u8]) -> (n: u32)
    requires
        buf@.len() >= 4,
    ensures
        n as int == le_u32(buf@),
{
    byteorder::LittleEndian::read_u32(buf)
}

/// Reads four bytes with `byteorder::BigEndian::read_u32`, which takes the
/// first four bytes of the buffer as a number, most significant byte first,
/// and panics on a shorter buffer.
#[verifier::external_body]
fn read_u32_be(buf: &[u8]) -> (n: u32)
    requires
        buf@.len() >= 4,
    ensures
        n as int == be_u32(buf@),
{
    byteorder::BigEndian::read_u32(buf)
}

/// Reads the 32-bit number at the head of `buf` in byte order `e`.
pub fn read_u32(buf: &[u8], e: Endian) -> (n: u32)
    requires
        buf@.len() >= 4,
    ensures
        n as int == u32_value(buf@, e),
{
    match e {
        Endian::Little => read_u32_le(buf),
        Endian::Big => read_u32_be(buf),
    }
}

/// Appends the four bytes of `n` in byte order `e`.
pub fn write_u32(out: &mut Vec<u8>, n: u32, e: Endian)
    ensures
        final(out)@ == old(out)@ + u32_bytes(n as int, e),
{
    let b0: u8 = (n % 0x100) as u8;
    let b1: u8 = (n / 0x100 % 0x100) as u8;
    let b2: u8 = (n / 0x1_0000 % 0x100) as u8;
    let b3: u8 = (n / 0x100_0000 % 0x100) as u8;
    match e {
        Endian::Little => {
            out.push(b0);
            out.push(b1);
            out.push(b2);
            out.push(b3);
            assert(out@ =~= old(out)@ + le_bytes(n as int));
        },
        Endian::Big => {
            out.push(b3);
            out.push(b2);
            out.push(b1);
            out.push(b0);
            assert(out@ =~= old(out)@ + le_bytes(n as int).reverse());
        },
    }
}

} // verus!

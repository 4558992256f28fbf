//! Little-endian integer fields as they appear on the wire.

use vstd::prelude::*;

verus! {

/// The two bytes of `x`, least significant first.
pub open spec fn le16(x: u16) -> Seq<u8> {
    seq![(x % 256) as u8, (x / 256) as u8]
}

/// The four bytes of `x`, least significant first.
pub open spec fn le32(x: u32) -> Seq<u8> {
    seq![(x % 256) as u8, ((x / 256) % 256) as u8, ((x / 65536) % 256) as u8, (x / 16777216) as u8]
}

/// The 16-bit value held in `b[at]`, `b[at + 1]`.
pub open spec fn read16(b: Seq<u8>, at: int) -> u16 {
    (b[at] as int + 256 * b[at + 1] as int) as u16
}

/// The 32-bit value held in `b[at..at + 4]`.
pub open spec fn read32(b: Seq<u8>, at: int) -> u32 {
    (b[at] as int + 256 * b[at + 1] as int + 65536 * b[at + 2] as int + 16777216 * b[at + 3] as int) as u32
}

pub proof fn lemma_read16_le16(x: u16, pre: Seq<u8>, post: Seq<u8>)
    ensures
        read16(pre + le16(x) + post, pre.len() as int) == x,
{
    let b = pre + le16(x) + post;
    let at = pre.len() as int;
    assert(b[at] == (x % 256) as u8);
    assert(b[at + 1] == (x / 256) as u8);
}

pub proof fn lemma_read32_le32(x: u32, pre: Seq<u8>, post: Seq<u8>)
    ensures
        read32(pre + le32(x) + post, pre.len() as int) == x,
{
    let b = pre + le32(x) + post;
    let at = pre.len() as int;
    assert(b[at] == (x % 256) as u8);
    assert(b[at + 1] == ((x / 256) % 256) as u8);
    assert(b[at + 2] == ((x / 65536) % 256) as u8);
    assert(b[at + 3] == (x / 16777216) as u8);
}

/// Appends the little-endian bytes of `x` to `out`.
pub fn push_u16(out: &mut Vec<u8>, x: u16)
    ensures
        final(out)@ == old(out)@ + le16(x),
{
    out.push((x % 256) as u8);
    out.push((x / 256) as u8);
    assert(final(out)@ =~= old(out)@ + le16(x));
}

/// Appends the little-endian bytes of `x` to `out`.
pub fn push_u32(out: &mut Vec<u8>, x: u32)
    ensures
        final(out)@ == old(out)@ + le32(x),
{
    out.push((x % 256) as u8);
    out.push(((x / 256) % 256) as u8);
    out.push(((x / 65536) % 256) as u8);
    out.push((x / 16777216) as u8);
    assert(final(out)@ =~= old(out)@ + le32(x));
}

/// Reads the little-endian 16-bit value at `at`.
pub fn get_u16(b: &[u8], at: usize) -> (r: u16)
    requires
        at + 2 <= b@.len(),
    ensures
        r == read16(b@, at as int),
{
    b[at] as u16 + 256 * (b[at + 1] as u16)
}

/// Reads the little-endian 32-bit value at `at`.
pub fn get_u32(b: &[u8], at: usize) -> (r: u32)
    requires
        at + 4 <= b@.len(),
    ensures
        r == read32(b@, at as int),
{
    b[at] as u32 + 256 * (b[at + 1] as u32) + 65536 * (b[at + 2] as u32) + 16777216 * (b[at + 3] as u32)
}

} // verus!

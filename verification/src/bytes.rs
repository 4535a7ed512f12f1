//! Little- and big-endian numbers in byte strings.

use vstd::prelude::*;

verus! {

/// The unsigned 16-bit little-endian number at `i`.
pub open spec fn le_u16(b: Seq<u8>, i: int) -> u16 {
    (b[i] + 0x100 * b[i + 1]) as u16
}

/// The unsigned 32-bit little-endian number at `i`.
pub open spec fn le_u32(b: Seq<u8>, i: int) -> u32 {
    (b[i] + 0x100 * b[i + 1] + 0x10000 * b[i + 2] + 0x1000000 * b[i + 3]) as u32
}

/// The 32-bit two's complement number with the bits of `n`.
pub open spec fn signed(n: u32) -> i32 {
    if n < 0x8000_0000 {
        n as i32
    } else {
        (n - 0x1_0000_0000) as i32
    }
}

/// The unsigned 32-bit big-endian number at `i`.
pub open spec fn be_u32(b: Seq<u8>, i: int) -> u32 {
    (b[i + 3] + 0x100 * b[i + 2] + 0x10000 * b[i + 1] + 0x1000000 * b[i]) as u32
}

/// The four little-endian bytes of `n`.
pub open spec fn le32(n: u32) -> Seq<u8> {
    seq![
        (n % 0x100) as u8,
        (n / 0x100 % 0x100) as u8,
        (n / 0x10000 % 0x100) as u8,
        (n / 0x1000000) as u8,
    ]
}

/// The two little-endian bytes of `n`.
pub open spec fn le16(n: u16) -> Seq<u8> {
    seq![(n % 0x100) as u8, (n / 0x100) as u8]
}

/// Reads the unsigned 16-bit little-endian number at `i`.
pub fn read_u16(b: &[u8], i: usize) -> (r: u16)
    requires
        i + 2 <= b@.len(),
    ensures
        r == le_u16(b@, i as int),
{
    assert(i + 2 <= b.len());
    b[i] as u16 + 0x100 * (b[i + 1] as u16)
}

/// Reads the unsigned 32-bit little-endian number at `i`.
pub fn read_u32(b: &[u8], i: usize) -> (r: u32)
    requires
        i + 4 <= b@.len(),
    ensures
        r == le_u32(b@, i as int),
{
    assert(i + 4 <= b.len());
    b[i] as u32 + 0x100 * (b[i + 1] as u32) + 0x10000 * (b[i + 2] as u32) + 0x1000000 * (b[i
        + 3] as u32)
}

/// Reads the signed 32-bit little-endian number at `i`.
pub fn read_i32(b: &[u8], i: usize) -> (r: i32)
    requires
        i + 4 <= b@.len(),
    ensures
        r == signed(le_u32(b@, i as int)),
{
    let n: u32 = read_u32(b, i);
    if n < 0x8000_0000 {
        n as i32
    } else {
        (n as i64 - 0x1_0000_0000) as i32
    }
}

/// Reads the unsigned 32-bit big-endian number at `i`.
pub fn read_be_u32(b: &[u8], i: usize) -> (r: u32)
    requires
        i + 4 <= b@.len(),
    ensures
        r == be_u32(b@, i as int),
{
    assert(i + 4 <= b.len());
    b[i + 3] as u32 + 0x100 * (b[i + 2] as u32) + 0x10000 * (b[i + 1] as u32) + 0x1000000 * (
    b[i] as u32)
}

/// Appends the four little-endian bytes of `n`.
pub fn push_le32(out: &mut Vec<u8>, n: u32)
    ensures
        final(out)@ == old(out)@ + le32(n),
{
    out.push((n % 0x100) as u8);
    out.push((n / 0x100 % 0x100) as u8);
    out.push((n / 0x10000 % 0x100) as u8);
    out.push((n / 0x1000000) as u8);
    assert(out@ =~= old(out)@ + le32(n));
}

/// Appends the two little-endian bytes of `n`.
pub fn push_le16(out: &mut Vec<u8>, n: u16)
    ensures
        final(out)@ == old(out)@ + le16(n),
{
    out.push((n % 0x100) as u8);
    out.push((n / 0x100) as u8);
    assert(out@ =~= old(out)@ + le16(n));
}

/// A number that is written little-endian reads back as itself.
pub proof fn law_le32_round_trip(b: Seq<u8>, i: int, n: u32)
    requires
        0 <= i,
        i + 4 <= b.len(),
        b.subrange(i, i + 4) == le32(n),
    ensures
        le_u32(b, i) == n,
{
    let s = b.subrange(i, i + 4);
    assert(b[i] == s[0] && b[i + 1] == s[1] && b[i + 2] == s[2] && b[i + 3] == s[3]);
}

/// A little-endian number is the sum of its bytes, each worth 256 times the one
/// in front of it, and a big-endian one that of its bytes in reverse.
pub proof fn law_numbers_are_sums(b: Seq<u8>, i: int)
    ensures
        le_u16(b, i) == b[i] + 256 * b[i + 1],
        le_u32(b, i) == b[i] + 256 * (b[i + 1] + 256 * (b[i + 2] + 256 * b[i + 3])),
        be_u32(b, i) == b[i + 3] + 256 * (b[i + 2] + 256 * (b[i + 1] + 256 * b[i])),
        be_u32(b, i) == le_u32(seq![b[i + 3], b[i + 2], b[i + 1], b[i]], 0),
{
}

/// The bytes of a number add up to it.
pub proof fn law_bytes_add_up(n: u32, m: u16)
    ensures
        le32(n).len() == 4,
        le32(n)[0] + 256 * (le32(n)[1] + 256 * (le32(n)[2] + 256 * le32(n)[3])) == n,
        le16(m).len() == 2,
        le16(m)[0] + 256 * le16(m)[1] == m,
{
}

/// A number and its two's complement differ by a multiple of 2^32, and numbers
/// below 2^31 are their own.
pub proof fn law_signed(n: u32)
    ensures
        signed(n) == n || signed(n) == n - 0x1_0000_0000,
        -0x8000_0000 <= signed(n) <= 0x7fff_ffff,
        (signed(n) < 0) == (n >= 0x8000_0000),
{
}

} // verus!

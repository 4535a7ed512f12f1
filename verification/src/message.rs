//! The numbers that window messages carry.
//!
//! Two 16-bit numbers are packed into the lower half of a message parameter;
//! positions are signed.

use vstd::arithmetic::div_mod::*;
use vstd::prelude::*;

verus! {

/// The lower 16 bits of a message parameter.
pub open spec fn low_of(p: u64) -> u32 {
    (p % 0x10000) as u32
}

/// The next 16 bits of a message parameter.
pub open spec fn high_of(p: u64) -> u32 {
    (p / 0x10000 % 0x10000) as u32
}

/// A 16-bit number read as signed.
pub open spec fn signed16(n: u32) -> i32 {
    if n < 0x8000 {
        n as i32
    } else {
        (n - 0x10000) as i32
    }
}

/// The lower 16 bits of a message parameter, as a signed number.
pub open spec fn signed_low_of(p: u64) -> i32 {
    signed16(low_of(p))
}

/// The next 16 bits of a message parameter, as a signed number.
pub open spec fn signed_high_of(p: u64) -> i32 {
    signed16(high_of(p))
}

/// The lower 16 bits of a message parameter.
pub fn low_word(p: u64) -> (r: u32)
    ensures
        r == low_of(p),
        r < 0x10000,
{
    (p % 0x10000) as u32
}

/// The next 16 bits of a message parameter.
pub fn high_word(p: u64) -> (r: u32)
    ensures
        r == high_of(p),
        r < 0x10000,
{
    (p / 0x10000 % 0x10000) as u32
}

fn as_signed(n: u32) -> (r: i32)
    requires
        n < 0x10000,
    ensures
        r == signed16(n),
        -0x8000 <= r <= 0x7fff,
{
    if n < 0x8000 {
        n as i32
    } else {
        n as i32 - 0x10000
    }
}

/// The lower 16 bits of a message parameter, as a signed number.
pub fn signed_low(p: u64) -> (r: i32)
    ensures
        r == signed_low_of(p),
        -0x8000 <= r <= 0x7fff,
{
    as_signed(low_word(p))
}

/// The next 16 bits of a message parameter, as a signed number.
pub fn signed_high(p: u64) -> (r: i32)
    ensures
        r == signed_high_of(p),
        -0x8000 <= r <= 0x7fff,
{
    as_signed(high_word(p))
}

/// A message parameter holds two 16-bit numbers, the lower one first; positions
/// to the left of the screen or above it are negative.
pub proof fn law_words(lo: int, hi: int, rest: int, p: u64)
    requires
        -0x8000 <= lo < 0x8000,
        -0x8000 <= hi < 0x8000,
        0 <= rest,
        p == (if lo < 0 {
            lo + 0x1_0000
        } else {
            lo
        }) + 0x1_0000 * (if hi < 0 {
            hi + 0x1_0000
        } else {
            hi
        }) + 0x1_0000_0000 * rest,
    ensures
        signed_low_of(p) == lo,
        signed_high_of(p) == hi,
        low_of(p) == if lo < 0 {
            lo + 0x1_0000
        } else {
            lo
        },
        high_of(p) == if hi < 0 {
            hi + 0x1_0000
        } else {
            hi
        },
{
    let low = if lo < 0 {
        lo + 0x1_0000
    } else {
        lo
    };
    let high = if hi < 0 {
        hi + 0x1_0000
    } else {
        hi
    };
    lemma_fundamental_div_mod_converse(p as int, 0x1_0000, high + 0x1_0000 * rest, low);
    lemma_fundamental_div_mod_converse(p as int / 0x1_0000, 0x1_0000, rest, high);
}

} // verus!

//! The content fingerprint of an item.

use vstd::prelude::*;

verus! {

/// The state of the hash before the first byte.
pub const FNV_OFFSET: u64 = 0xcbf29ce484222325;

/// The factor of each round.
pub const FNV_PRIME: u64 = 0x100000001b3;

/// One round of FNV-1a: mix a byte in, then multiply modulo 2^64.
pub open spec fn fnv_round(h: u64, b: u8) -> u64 {
    (h ^ (b as u64)).wrapping_mul(FNV_PRIME)
}

/// The 64-bit FNV-1a hash of a byte string.
pub open spec fn fnv1a(bytes: Seq<u8>) -> u64
    decreases bytes.len(),
{
    if bytes.len() == 0 {
        FNV_OFFSET
    } else {
        fnv_round(fnv1a(bytes.drop_last()), bytes.last())
    }
}

/// The 64-bit FNV-1a hash of `bytes`, a fingerprint that does not change from
/// one release to the next and can be stored.
pub fn fnv1a_64(bytes: &[u8]) -> (r: u64)
    ensures
        r == fnv1a(bytes@),
{
    let mut h: u64 = FNV_OFFSET;
    let mut i: usize = 0;
    while i < bytes.len()
        invariant
            i <= bytes@.len(),
            h == fnv1a(bytes@.take(i as int)),
        decreases bytes@.len() - i,
    {
        h = (h ^ (bytes[i] as u64)).wrapping_mul(FNV_PRIME);
        assert(bytes@.take(i + 1).drop_last() == bytes@.take(i as int));
        i += 1;
    }
    assert(bytes@.take(bytes@.len() as int) == bytes@);
    h
}

/// The hash is FNV-1a with the 64-bit parameters: it starts at the offset
/// basis, and each byte is mixed in before the product with the prime is taken
/// modulo 2^64.
pub proof fn law_fnv(bytes: Seq<u8>, b: u8)
    ensures
        fnv1a(seq![]) == 14695981039346656037,
        fnv1a(bytes.push(b)) == ((fnv1a(bytes) ^ (b as u64)) * 1099511628211)
            % 18446744073709551616,
{
    assert(bytes.push(b).drop_last() =~= bytes);
}

} // verus!

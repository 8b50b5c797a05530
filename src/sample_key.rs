//! Order keys of samples.
//!
//! A sample is an IEEE-754 single-precision number, held here by its bit
//! pattern. Its order key is an unsigned integer that sorts as the samples
//! do: negative samples (sign bit set) have their bits inverted, the others
//! get the sign bit set. Magnitudes of one sign then compare as unsigned
//! integers, larger negative magnitudes come first, and every negative sample
//! comes before every non-negative one.

use vstd::prelude::*;

verus! {

/// Sign bit of a single-precision bit pattern.
pub const SIGN_BIT: u32 = 0x8000_0000;

/// Order key of the sample with bit pattern `bits`.
pub open spec fn key_of(bits: u32) -> u32 {
    if bits & SIGN_BIT != 0 {
        !bits
    } else {
        bits | SIGN_BIT
    }
}

/// Bit pattern of the sample with order key `key`.
pub open spec fn bits_of(key: u32) -> u32 {
    if key & SIGN_BIT != 0 {
        key & !SIGN_BIT
    } else {
        !key
    }
}

/// The order key of a sample given by its bit pattern.
pub fn sample_key(bits: u32) -> (r: u32)
    ensures
        r == key_of(bits),
{
    if bits & SIGN_BIT != 0 {
        !bits
    } else {
        bits | SIGN_BIT
    }
}

/// The bit pattern of the sample whose order key is `key`.
pub fn sample_bits(key: u32) -> (r: u32)
    ensures
        r == bits_of(key),
{
    if key & SIGN_BIT != 0 {
        key & !SIGN_BIT
    } else {
        !key
    }
}

/// Keys and bit patterns convert into each other without loss.
pub proof fn lemma_key_round_trip(bits: u32, key: u32)
    ensures
        bits_of(key_of(bits)) == bits,
        key_of(bits_of(key)) == key,
{
    assert(bits & 0x8000_0000 != 0 ==> (!bits) & 0x8000_0000 == 0 && !(!bits) == bits)
        by (bit_vector);
    assert(bits & 0x8000_0000 == 0 ==> (bits | 0x8000_0000) & 0x8000_0000 != 0 && (bits
        | 0x8000_0000) & !0x8000_0000u32 == bits) by (bit_vector);
    assert(key & 0x8000_0000 != 0 ==> (key & !0x8000_0000u32) & 0x8000_0000 == 0 && ((key
        & !0x8000_0000u32) | 0x8000_0000) == key) by (bit_vector);
    assert(key & 0x8000_0000 == 0 ==> (!key) & 0x8000_0000 != 0 && !(!key) == key)
        by (bit_vector);
}

/// Keys sort as the samples: non-negative samples by magnitude, negative
/// samples by reversed magnitude, and every negative sample first. The
/// magnitude is the bit pattern without its sign bit.
pub proof fn lemma_key_order(a: u32, b: u32)
    ensures
        a & SIGN_BIT == 0 && b & SIGN_BIT == 0 ==> (key_of(a) < key_of(b) <==> a < b),
        a & SIGN_BIT != 0 && b & SIGN_BIT != 0 ==> (key_of(a) < key_of(b) <==> (a
            & !SIGN_BIT) > (b & !SIGN_BIT)),
        a & SIGN_BIT != 0 && b & SIGN_BIT == 0 ==> key_of(a) < key_of(b),
{
    assert(a & 0x8000_0000 == 0 && b & 0x8000_0000 == 0 ==> ((a | 0x8000_0000) < (b
        | 0x8000_0000) <==> a < b)) by (bit_vector);
    assert(a & 0x8000_0000 != 0 && b & 0x8000_0000 != 0 ==> (!a < !b <==> (a
        & !0x8000_0000u32) > (b & !0x8000_0000u32))) by (bit_vector);
    assert(a & 0x8000_0000 != 0 && b & 0x8000_0000 == 0 ==> !a < (b | 0x8000_0000))
        by (bit_vector);
}

} // verus!

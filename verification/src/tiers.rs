//! Length tiers and their offsets. `offset(L)` is the lower bound of the
//! value range representable at exactly `L` encoded bytes: each further byte
//! is rebased past everything the shorter lengths can hold, so every tier
//! contributes only new values. A tier of length `L` carries `7 * L` payload
//! bits in the 32- and 64-bit classes; the 64-bit terminal tier (length 9)
//! carries a full 64, and the 128-bit extended tiers (lengths 10..16) restart
//! the same scheme in the second byte, rebased at `offset(9)`.

use vstd::prelude::*;

verus! {

use vstd::arithmetic::power2::lemma2_to64;
use vstd::arithmetic::power2::lemma2_to64_rest;
use vstd::arithmetic::power2::lemma_pow2_adds;
use vstd::arithmetic::power2::pow2;

/// Lower bound of the value range of length `l` in the 32- and 64-bit
/// classes (the 32-bit class uses lengths 1..5 of it, with its terminal tier
/// truncating to 32 bits).
pub open spec fn offset64(l: int) -> int
    decreases l,
{
    if l <= 1 {
        0
    } else {
        offset64(l - 1) + pow2((7 * (l - 1)) as nat)
    }
}

/// Lower bound of the value range of length `l` in the 128-bit class.
/// Lengths 1..9 match the 64-bit class; the extended tiers (10..16) restart
/// at `offset(9)`, since the 9-byte tier only holds the values whose rebased
/// remainder has the top bit of its 8-byte body set; length 18 is the raw,
/// unrebased terminal tier.
pub open spec fn offset128(l: int) -> int
    decreases l,
{
    if l <= 1 {
        0
    } else if l == 10 {
        offset128(9)
    } else {
        offset128(l - 1) + pow2((7 * (l - 1)) as nat)
    }
}

/// The numeric values of `offset64` for every length of the 64-bit class.
pub proof fn lemma_offset64_vals()
    ensures
        offset64(1) == 0,
        offset64(2) == 0x80,
        offset64(3) == 0x4080,
        offset64(4) == 0x20_4080,
        offset64(5) == 0x1020_4080,
        offset64(6) == 0x08_1020_4080,
        offset64(7) == 0x0408_1020_4080,
        offset64(8) == 0x02_0408_1020_4080,
        offset64(9) == 0x0102_0408_1020_4080,
{
    lemma2_to64();
    lemma2_to64_rest();
    assert(offset64(1) == 0);
    assert(offset64(2) == offset64(1) + pow2(7));
    assert(offset64(3) == offset64(2) + pow2(14));
    assert(offset64(4) == offset64(3) + pow2(21));
    assert(offset64(5) == offset64(4) + pow2(28));
    assert(offset64(6) == offset64(5) + pow2(35));
    assert(offset64(7) == offset64(6) + pow2(42));
    assert(offset64(8) == offset64(7) + pow2(49));
    assert(offset64(9) == offset64(8) + pow2(56));
}

/// The numeric values of `pow2` at the exponents the 128-bit class uses.
pub proof fn lemma_pow2_high_vals()
    ensures
        pow2(63) == 0x8000_0000_0000_0000,
        pow2(64) == 0x1_0000_0000_0000_0000,
        pow2(70) == 0x40_0000_0000_0000_0000,
        pow2(77) == 0x2000_0000_0000_0000_0000,
        pow2(84) == 0x10_0000_0000_0000_0000_0000,
        pow2(91) == 0x0800_0000_0000_0000_0000_0000,
        pow2(98) == 0x04_0000_0000_0000_0000_0000_0000,
        pow2(105) == 0x0200_0000_0000_0000_0000_0000_0000,
        pow2(112) == 0x01_0000_0000_0000_0000_0000_0000_0000,
{
    lemma2_to64();
    lemma2_to64_rest();
    lemma_pow2_adds(64, 6);
    lemma_pow2_adds(64, 13);
    lemma_pow2_adds(64, 20);
    lemma_pow2_adds(64, 27);
    lemma_pow2_adds(64, 34);
    lemma_pow2_adds(64, 41);
    lemma_pow2_adds(64, 48);
}

/// Tier capacities in the 32- and 64-bit classes: the range of a marked
/// length `l` spans `2^(7l)` values, and that span factors as `weight of the
/// body * payload capacity of the leading byte`.
pub(crate) proof fn lemma_tier64_capacity(l: int)
    requires
        1 <= l <= 8,
    ensures
        offset64(l + 1) - offset64(l) == pow2((7 * l) as nat),
        pow2((7 * l) as nat) == crate::digits::pow256((l - 1) as nat) * pow2((8 - l) as nat),
{
    crate::digits::lemma_pow256_is_pow2((l - 1) as nat);
    lemma_pow2_adds((8 * (l - 1)) as nat, (8 - l) as nat);
}

/// Tier capacities of the 128-bit extended tiers: the range of length `l`
/// (marker in the second byte) spans `2^(7l)` values, factoring as `weight of
/// the body * payload capacity of the second byte`.
pub(crate) proof fn lemma_tier128_capacity(l: int)
    requires
        10 <= l <= 16,
    ensures
        offset128(l + 1) - offset128(l) == pow2((7 * l) as nat),
        pow2((7 * l) as nat) == crate::digits::pow256((l - 2) as nat) * pow2((16 - l) as nat),
{
    crate::digits::lemma_pow256_is_pow2((l - 2) as nat);
    lemma_pow2_adds((8 * (l - 2)) as nat, (16 - l) as nat);
}

/// The numeric values of `offset128` for every length of the 128-bit class.
pub proof fn lemma_offset128_vals()
    ensures
        offset128(1) == 0,
        offset128(2) == 0x80,
        offset128(3) == 0x4080,
        offset128(4) == 0x20_4080,
        offset128(5) == 0x1020_4080,
        offset128(6) == 0x08_1020_4080,
        offset128(7) == 0x0408_1020_4080,
        offset128(8) == 0x02_0408_1020_4080,
        offset128(9) == 0x0102_0408_1020_4080,
        offset128(10) == 0x0102_0408_1020_4080,
        offset128(11) == 0x40_0102_0408_1020_4080,
        offset128(12) == 0x2040_0102_0408_1020_4080,
        offset128(13) == 0x10_2040_0102_0408_1020_4080,
        offset128(14) == 0x0810_2040_0102_0408_1020_4080,
        offset128(15) == 0x04_0810_2040_0102_0408_1020_4080,
        offset128(16) == 0x0204_0810_2040_0102_0408_1020_4080,
        offset128(17) == 0x01_0204_0810_2040_0102_0408_1020_4080,
{
    lemma2_to64();
    lemma2_to64_rest();
    lemma_pow2_high_vals();
    assert(offset128(1) == 0);
    assert(offset128(2) == offset128(1) + pow2(7));
    assert(offset128(3) == offset128(2) + pow2(14));
    assert(offset128(4) == offset128(3) + pow2(21));
    assert(offset128(5) == offset128(4) + pow2(28));
    assert(offset128(6) == offset128(5) + pow2(35));
    assert(offset128(7) == offset128(6) + pow2(42));
    assert(offset128(8) == offset128(7) + pow2(49));
    assert(offset128(9) == offset128(8) + pow2(56));
    assert(offset128(10) == offset128(9));
    assert(offset128(11) == offset128(10) + pow2(70));
    assert(offset128(12) == offset128(11) + pow2(77));
    assert(offset128(13) == offset128(12) + pow2(84));
    assert(offset128(14) == offset128(13) + pow2(91));
    assert(offset128(15) == offset128(14) + pow2(98));
    assert(offset128(16) == offset128(15) + pow2(105));
    assert(offset128(17) == offset128(16) + pow2(112));
}

} // verus!

//! Zigzag mapping between signed and unsigned integers of matching width:
//! 0 -> 0, -1 -> 1, 1 -> 2, -2 -> 3, 2 -> 4, ... so that values of small
//! magnitude of either sign map to small unsigned values.

use vstd::prelude::*;

verus! {

use vstd::arithmetic::div_mod::lemma_fundamental_div_mod_converse;

/// The unsigned counterpart of a signed integer under the zigzag mapping.
pub open spec fn zigzag_to_unsigned(n: int) -> int {
    if n >= 0 {
        2 * n
    } else {
        -2 * n - 1
    }
}

/// The signed integer recovered from its zigzag counterpart: even values come
/// from non-negative originals, odd values from negative ones.
pub open spec fn zigzag_to_signed(u: int) -> int {
    if u % 2 == 0 {
        u / 2
    } else {
        -(u / 2) - 1
    }
}

/// Zigzag round trip: mapping any signed integer to its unsigned counterpart
/// and back recovers it.
pub proof fn lemma_zigzag_round_trip(n: int)
    ensures
        zigzag_to_signed(zigzag_to_unsigned(n)) == n,
{
    if n >= 0 {
        lemma_fundamental_div_mod_converse(2 * n, 2, n, 0);
    } else {
        lemma_fundamental_div_mod_converse(-2 * n - 1, 2, -n - 1, 1);
    }
}

/// Zigzag is a bijection: every non-negative integer is the counterpart of
/// exactly one signed integer.
pub proof fn lemma_zigzag_bijective(u: int)
    requires
        u >= 0,
    ensures
        zigzag_to_unsigned(zigzag_to_signed(u)) == u,
{
    vstd::arithmetic::div_mod::lemma_fundamental_div_mod(u, 2);
}

} // verus!

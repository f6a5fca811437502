//! Big-endian byte digits: the numeric value carried by a run of bytes, and
//! verified helpers that write a value as base-256 digits and read it back.

use vstd::prelude::*;

verus! {

use vstd::arithmetic::div_mod::lemma_fundamental_div_mod;
use vstd::arithmetic::div_mod::lemma_mod_add_multiples_vanish;
use vstd::arithmetic::div_mod::lemma_multiply_divide_lt;
use vstd::arithmetic::div_mod::lemma_small_mod;
use vstd::arithmetic::mul::lemma_mul_inequality;
use vstd::arithmetic::power::lemma_pow_adds;
use vstd::arithmetic::power::lemma_pow_positive;
use vstd::arithmetic::power::pow;

/// 256 raised to `k`: the weight of the byte `k` positions above the least
/// significant one.
pub open spec fn pow256(k: nat) -> int {
    pow(256, k)
}

/// The unsigned value of a byte sequence read as a big-endian base-256
/// numeral.
pub open spec fn be_val(s: Seq<u8>) -> int
    decreases s.len(),
{
    if s.len() == 0 {
        0
    } else {
        256 * be_val(s.drop_last()) + s.last()
    }
}

pub proof fn lemma_pow256_pos(k: nat)
    ensures
        pow256(k) >= 1,
{
    lemma_pow_positive(256, k);
}

pub proof fn lemma_pow256_unfold(k: nat)
    requires
        k >= 1,
    ensures
        pow256(k) == 256 * pow256((k - 1) as nat),
{
    lemma_pow_adds(256, 1nat, (k - 1) as nat);
    assert(pow(256, 1nat) == 256) by {
        vstd::arithmetic::power::lemma_pow1(256);
    }
}

/// The numeric values of `pow256` for every byte count that a buffer of this
/// crate can hold.
pub proof fn lemma_pow256_vals()
    ensures
        pow256(0) == 1,
        pow256(1) == 0x100,
        pow256(2) == 0x1_0000,
        pow256(3) == 0x100_0000,
        pow256(4) == 0x1_0000_0000,
        pow256(5) == 0x100_0000_0000,
        pow256(6) == 0x1_0000_0000_0000,
        pow256(7) == 0x100_0000_0000_0000,
        pow256(8) == 0x1_0000_0000_0000_0000,
        pow256(9) == 0x100_0000_0000_0000_0000,
        pow256(10) == 0x1_0000_0000_0000_0000_0000,
        pow256(11) == 0x100_0000_0000_0000_0000_0000,
        pow256(12) == 0x1_0000_0000_0000_0000_0000_0000,
        pow256(13) == 0x100_0000_0000_0000_0000_0000_0000,
        pow256(14) == 0x1_0000_0000_0000_0000_0000_0000_0000,
        pow256(15) == 0x100_0000_0000_0000_0000_0000_0000_0000,
        pow256(16) == 0x1_0000_0000_0000_0000_0000_0000_0000_0000,
{
    assert(pow256(0) == 1) by {
        reveal(pow);
    }
    assert forall|k: nat| 1 <= k <= 16 implies #[trigger] pow256(k) == 256 * pow256(
        (k - 1) as nat,
    ) by {
        lemma_pow256_unfold(k);
    }
    assert(pow256(1) == 256 * pow256(0));
    assert(pow256(2) == 256 * pow256(1));
    assert(pow256(3) == 256 * pow256(2));
    assert(pow256(4) == 256 * pow256(3));
    assert(pow256(5) == 256 * pow256(4));
    assert(pow256(6) == 256 * pow256(5));
    assert(pow256(7) == 256 * pow256(6));
    assert(pow256(8) == 256 * pow256(7));
    assert(pow256(9) == 256 * pow256(8));
    assert(pow256(10) == 256 * pow256(9));
    assert(pow256(11) == 256 * pow256(10));
    assert(pow256(12) == 256 * pow256(11));
    assert(pow256(13) == 256 * pow256(12));
    assert(pow256(14) == 256 * pow256(13));
    assert(pow256(15) == 256 * pow256(14));
    assert(pow256(16) == 256 * pow256(15));
}

/// A run of `k` bytes carries a value below `256^k`.
pub proof fn lemma_be_val_bounds(s: Seq<u8>)
    ensures
        0 <= be_val(s) < pow256(s.len()),
    decreases s.len(),
{
    if s.len() == 0 {
        assert(pow256(0) == 1) by {
            reveal(pow);
        }
    } else {
        lemma_be_val_bounds(s.drop_last());
        lemma_pow256_unfold(s.len());
        assert(256 * be_val(s.drop_last()) <= 256 * (pow256((s.len() - 1) as nat) - 1)) by {
            lemma_mul_inequality(be_val(s.drop_last()), pow256((s.len() - 1) as nat) - 1, 256);
        }
    }
}

/// Prepending a byte adds its value at the weight of the run it precedes.
pub proof fn lemma_be_val_prepend(d: u8, s: Seq<u8>)
    ensures
        be_val(seq![d] + s) == d * pow256(s.len()) + be_val(s),
    decreases s.len(),
{
    let t = seq![d] + s;
    if s.len() == 0 {
        assert(t =~= seq![d]);
        assert(be_val(seq![d]) == d) by {
            assert(seq![d].len() == 1);
            assert(seq![d].last() == d);
            assert(seq![d].drop_last() =~= Seq::<u8>::empty());
            assert(be_val(Seq::<u8>::empty()) == 0);
        }
        assert(pow256(0) == 1) by {
            reveal(pow);
        }
    } else {
        assert(t.drop_last() =~= seq![d] + s.drop_last());
        lemma_be_val_prepend(d, s.drop_last());
        lemma_pow256_unfold(s.len());
        assert(be_val(t) == 256 * (d * pow256((s.len() - 1) as nat) + be_val(s.drop_last()))
            + s.last());
        assert(256 * (d * pow256((s.len() - 1) as nat)) == d * (256 * pow256(
            (s.len() - 1) as nat,
        ))) by (nonlinear_arith);
    }
}

/// The first byte of a run is the quotient of its value by the weight of the
/// remaining bytes.
pub proof fn lemma_be_val_split_first(s: Seq<u8>)
    requires
        s.len() >= 1,
    ensures
        be_val(s) == s[0] * pow256((s.len() - 1) as nat) + be_val(s.subrange(1, s.len() as int)),
{
    let rest = s.subrange(1, s.len() as int);
    assert(s =~= seq![s[0]] + rest);
    lemma_be_val_prepend(s[0], rest);
}

/// A byte weight is a power of two: `256^k == 2^(8k)`.
pub proof fn lemma_pow256_is_pow2(k: nat)
    ensures
        pow256(k) == vstd::arithmetic::power2::pow2((8 * k) as nat),
{
    vstd::arithmetic::power2::lemma_pow2((8 * k) as nat);
    vstd::arithmetic::power::lemma_pow_multiplies(2, 8, k);
    assert(pow(2, 8nat) == 256) by {
        vstd::arithmetic::power2::lemma_pow2(8);
        vstd::arithmetic::power2::lemma2_to64();
    }
}

/// Weights do not decrease with the byte count.
pub proof fn lemma_pow256_le(k1: nat, k2: nat)
    requires
        k1 <= k2,
    ensures
        pow256(k1) <= pow256(k2),
{
    if k1 < k2 {
        vstd::arithmetic::power::lemma_pow_strictly_increases(256, k1, k2);
    }
}

/// Splitting a value at weight `p`: quotient bound, and the exact
/// recombination of quotient and remainder.
pub proof fn lemma_split_at(x: int, p: int, cap: int)
    requires
        p >= 1,
        cap >= 1,
        0 <= x < p * cap,
    ensures
        0 <= x / p < cap,
        0 <= x % p < p,
        x == (x / p) * p + x % p,
{
    lemma_multiply_divide_lt(x, p, cap);
    lemma_fundamental_div_mod(x, p);
    vstd::arithmetic::div_mod::lemma_div_pos_is_pos(x, p);
    assert(p * (x / p) == (x / p) * p) by (nonlinear_arith);
}

/// The weight `256^k`, as executable code.
pub(crate) fn pow256x(k: usize) -> (r: u128)
    requires
        k <= 15,
    ensures
        r as int == pow256(k as nat),
{
    proof {
        lemma_pow256_vals();
    }
    match k {
        0 => 0x1,
        1 => 0x100,
        2 => 0x1_0000,
        3 => 0x100_0000,
        4 => 0x1_0000_0000,
        5 => 0x100_0000_0000,
        6 => 0x1_0000_0000_0000,
        7 => 0x100_0000_0000_0000,
        8 => 0x1_0000_0000_0000_0000,
        9 => 0x100_0000_0000_0000_0000,
        10 => 0x1_0000_0000_0000_0000_0000,
        11 => 0x100_0000_0000_0000_0000_0000,
        12 => 0x1_0000_0000_0000_0000_0000_0000,
        13 => 0x100_0000_0000_0000_0000_0000_0000,
        14 => 0x1_0000_0000_0000_0000_0000_0000_0000,
        _ => 0x100_0000_0000_0000_0000_0000_0000_0000,
    }
}

/// Writes `x` as `hi - lo` big-endian bytes into `buf[lo..hi]`, leaving every
/// other byte unchanged.
pub fn be_write<const N: usize>(buf: &mut [u8; N], lo: usize, hi: usize, x: u128)
    requires
        lo <= hi <= N,
        x < pow256((hi - lo) as nat),
    ensures
        forall|i: int| 0 <= i < N && !(lo <= i < hi) ==> final(buf)@[i] == old(buf)@[i],
        be_val(final(buf)@.subrange(lo as int, hi as int)) == x,
{
    let mut v = x;
    let mut j = hi;
    proof {
        assert(buf@.subrange(hi as int, hi as int) =~= Seq::<u8>::empty());
        assert(be_val(Seq::<u8>::empty()) == 0);
        assert(pow256(0) == 1) by {
            reveal(pow);
        }
    }
    while j > lo
        invariant
            lo <= j <= hi <= N,
            v < pow256((j - lo) as nat),
            v * pow256((hi - j) as nat) + be_val(buf@.subrange(j as int, hi as int)) == x,
            forall|i: int| 0 <= i < N && !(j <= i < hi) ==> buf@[i] == old(buf)@[i],
        decreases j,
    {
        let ghost prev = buf@;
        let ghost v0 = v as int;
        let d = (v % 256) as u8;
        buf[j - 1] = d;
        v = v / 256;
        proof {
            let tail = prev.subrange(j as int, hi as int);
            assert(buf@.subrange(j - 1, hi as int) =~= seq![d] + tail);
            assert(buf@.subrange(j as int, hi as int) =~= tail);
            lemma_be_val_prepend(d, tail);
            lemma_fundamental_div_mod(v0, 256);
            lemma_pow256_unfold((j - lo) as nat);
            lemma_pow256_unfold((hi - j + 1) as nat);
            let p = pow256((hi - j) as nat);
            assert((v0 / 256) * (256 * p) + (v0 % 256) * p == v0 * p) by (nonlinear_arith)
                requires
                    v0 == 256 * (v0 / 256) + v0 % 256,
            ;
            assert(v0 / 256 < pow256((j - 1 - lo) as nat)) by {
                lemma_pow256_pos((j - 1 - lo) as nat);
                lemma_multiply_divide_lt(v0, 256, pow256((j - 1 - lo) as nat));
            }
        }
        j = j - 1;
    }
    proof {
        assert(pow256(0) == 1) by {
            reveal(pow);
        }
        assert(v == 0);
        assert(pow256((hi - j) as nat) >= 1) by {
            lemma_pow256_pos((hi - j) as nat);
        }
    }
}

/// Reads the big-endian value of `buf[lo..hi]`.
pub fn be_read<const N: usize>(buf: &[u8; N], lo: usize, hi: usize) -> (r: u128)
    requires
        lo <= hi <= N,
        hi - lo <= 16,
    ensures
        r as int == be_val(buf@.subrange(lo as int, hi as int)),
{
    let mut acc: u128 = 0;
    let mut j = lo;
    proof {
        assert(buf@.subrange(lo as int, lo as int) =~= Seq::<u8>::empty());
        lemma_pow256_vals();
    }
    while j < hi
        invariant
            lo <= j <= hi <= N,
            hi - lo <= 16,
            acc as int == be_val(buf@.subrange(lo as int, j as int)),
            acc < pow256((j - lo) as nat),
        decreases hi - j,
    {
        proof {
            let part = buf@.subrange(lo as int, j as int);
            let next = buf@.subrange(lo as int, j + 1);
            assert(next.drop_last() =~= part);
            lemma_pow256_unfold((j + 1 - lo) as nat);
            assert(256 * acc + 255 < 256 * pow256((j - lo) as nat)) by (nonlinear_arith)
                requires
                    acc < pow256((j - lo) as nat),
            ;
            assert(pow256((j + 1 - lo) as nat) <= pow256(16)) by {
                if j + 1 - lo < 16 {
                    vstd::arithmetic::power::lemma_pow_strictly_increases(
                        256,
                        (j + 1 - lo) as nat,
                        16,
                    );
                }
            }
            lemma_pow256_vals();
        }
        acc = acc * 256 + (buf[j] as u128);
        j = j + 1;
    }
    acc
}

} // verus!

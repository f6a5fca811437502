//! Unsigned 64-bit VLQ encoding: 1 to 9 bytes, with the total length always
//! recoverable from the leading byte alone.
//!
//! The leading byte of a length-`L` encoding (`L <= 8`) holds a single marker
//! bit at position `8 - L` from the bottom, with the bits below it carrying
//! the top of the rebased value; an all-zero leading byte marks the terminal
//! 9-byte tier, whose 8-byte body is the rebased value in full.

use vstd::prelude::*;

verus! {

use crate::digits::be_val;
use crate::digits::be_read;
use crate::digits::be_write;
use crate::digits::lemma_be_val_bounds;
use crate::digits::lemma_pow256_le;
use crate::digits::lemma_pow256_vals;
use crate::digits::lemma_split_at;
use crate::digits::pow256;
use crate::digits::pow256x;
use crate::tiers::lemma_offset64_vals;
use crate::tiers::lemma_tier64_capacity;
use crate::tiers::offset64;
use vstd::arithmetic::div_mod::lemma_mod_add_multiples_vanish;
use vstd::arithmetic::div_mod::lemma_small_mod;
use vstd::arithmetic::power2::lemma2_to64;
use vstd::arithmetic::power2::lemma2_to64_rest;
use vstd::arithmetic::power2::pow2;
use vstd::slice::slice_subrange;

/// Encoded length as a function of the leading byte: one more than the count
/// of its leading zero bits.
pub open spec fn vu64_len_of(b0: u8) -> int {
    if b0 >= 0x80 {
        1
    } else if b0 >= 0x40 {
        2
    } else if b0 >= 0x20 {
        3
    } else if b0 >= 0x10 {
        4
    } else if b0 >= 0x08 {
        5
    } else if b0 >= 0x04 {
        6
    } else if b0 >= 0x02 {
        7
    } else if b0 >= 0x01 {
        8
    } else {
        9
    }
}

/// Encoded length as a function of the value: the smallest length whose tier
/// contains the value.
pub open spec fn vu64_len_of_val(n: int) -> int {
    if n < offset64(2) {
        1
    } else if n < offset64(3) {
        2
    } else if n < offset64(4) {
        3
    } else if n < offset64(5) {
        4
    } else if n < offset64(6) {
        5
    } else if n < offset64(7) {
        6
    } else if n < offset64(8) {
        7
    } else if n < offset64(9) {
        8
    } else {
        9
    }
}

/// The value a 9-byte buffer decodes to: the payload bits of the leading
/// byte, then the remaining bytes of the derived length as a big-endian body,
/// rebased by the tier's offset. The terminal tier reduces modulo `2^64`, so
/// every buffer decodes to some value.
pub open spec fn vu64_decoded(s: Seq<u8>) -> int
    recommends
        s.len() == 9,
{
    let l = vu64_len_of(s[0]);
    if l == 9 {
        (be_val(s.subrange(1, 9)) + offset64(9)) % (pow2(64) as int)
    } else {
        ((s[0] as int) % (pow2((8 - l) as nat) as int)) * pow256((l - 1) as nat) + be_val(
            s.subrange(1, l),
        ) + offset64(l)
    }
}

/// An unsigned 64-bit integer in variable-length encoding. Only the first
/// `len()` bytes are meaningful; `encode_vu64` zeroes the rest.
#[derive(Clone, Copy, Debug)]
pub struct Vu64(pub(crate) [u8; 9]);

impl View for Vu64 {
    type V = Seq<u8>;

    closed spec fn view(&self) -> Seq<u8> {
        self.0@
    }
}

/// Length in bytes derived from the leading byte alone: one more than its
/// count of leading zero bits.
pub fn decode_len_vu64(b0: u8) -> (r: u8)
    ensures
        r as int == vu64_len_of(b0),
        1 <= r <= 9,
{
    if b0 >= 0x80 {
        1
    } else if b0 >= 0x40 {
        2
    } else if b0 >= 0x20 {
        3
    } else if b0 >= 0x10 {
        4
    } else if b0 >= 0x08 {
        5
    } else if b0 >= 0x04 {
        6
    } else if b0 >= 0x02 {
        7
    } else if b0 >= 0x01 {
        8
    } else {
        9
    }
}

/// Length in bytes that `encode_vu64` uses for `n`.
pub fn encode_len_vu64(n: u64) -> (r: u8)
    ensures
        r as int == vu64_len_of_val(n as int),
        1 <= r <= 9,
{
    proof {
        lemma_offset64_vals();
    }
    if n < 0x80 {
        1
    } else if n < 0x4080 {
        2
    } else if n < 0x20_4080 {
        3
    } else if n < 0x1020_4080 {
        4
    } else if n < 0x08_1020_4080 {
        5
    } else if n < 0x0408_1020_4080 {
        6
    } else if n < 0x02_0408_1020_4080 {
        7
    } else if n < 0x0102_0408_1020_4080 {
        8
    } else {
        9
    }
}

/// The tier's offset: lower bound of the values encoded at length `l`.
fn offset_vu64(l: u8) -> (r: u64)
    requires
        1 <= l <= 9,
    ensures
        r as int == offset64(l as int),
{
    proof {
        lemma_offset64_vals();
    }
    match l {
        1 => 0,
        2 => 0x80,
        3 => 0x4080,
        4 => 0x20_4080,
        5 => 0x1020_4080,
        6 => 0x08_1020_4080,
        7 => 0x0408_1020_4080,
        8 => 0x02_0408_1020_4080,
        _ => 0x0102_0408_1020_4080,
    }
}

/// The marker bit of a length-`l` leading byte: `2^(8 - l)` for the marked
/// tiers, zero for the terminal one.
fn marker_vu64(l: u8) -> (r: u8)
    requires
        1 <= l <= 9,
    ensures
        l <= 8 ==> r as int == pow2((8 - l) as nat),
        l == 9 ==> r == 0,
{
    proof {
        lemma2_to64();
    }
    match l {
        1 => 0x80,
        2 => 0x40,
        3 => 0x20,
        4 => 0x10,
        5 => 0x08,
        6 => 0x04,
        7 => 0x02,
        8 => 0x01,
        _ => 0x00,
    }
}

/// Encode `n`. The resulting buffer's leading byte determines the minimal
/// length for `n`, the buffer decodes back to `n`, and the bytes past the
/// used length are zero.
pub fn encode_vu64(n: u64) -> (r: Vu64)
    ensures
        r@.len() == 9,
        vu64_len_of(r@[0]) == vu64_len_of_val(n as int),
        vu64_decoded(r@) == n as int,
        forall|i: int| vu64_len_of_val(n as int) <= i < 9 ==> r@[i] == 0,
{
    proof {
        lemma_offset64_vals();
        lemma_pow256_vals();
        lemma2_to64();
        lemma2_to64_rest();
    }
    let len = encode_len_vu64(n);
    let off = offset_vu64(len);
    let rem: u128 = (n - off) as u128;
    let lenu = len as usize;
    let p = pow256x(lenu - 1);
    proof {
        if len <= 8 {
            lemma_tier64_capacity(len as int);
            assert(rem < pow256((len - 1) as nat) * pow2((8 - len) as nat));
            lemma_split_at(rem as int, p as int, pow2((8 - len) as nat) as int);
        } else {
            assert(rem < p) by {
                lemma_pow256_vals();
            }
            lemma_split_at(rem as int, p as int, 1);
        }
    }
    let hi = (rem / p) as u8;
    let mk = marker_vu64(len);
    let mut buf = [0u8; 9];
    be_write(&mut buf, 1, lenu, rem % p);
    let ghost mid = buf@;
    buf[0] = mk + hi;
    proof {
        assert(buf@ == mid.update(0, (mk + hi) as u8));
        let body = buf@.subrange(1, len as int);
        assert(body =~= mid.subrange(1, len as int));
        assert(be_val(body) == rem % p);
        let b0 = buf@[0];
        if len <= 8 {
            let cap = pow2((8 - len) as nat);
            assert(cap <= 0x80);
            assert(b0 == cap + hi);
            assert(vu64_len_of(buf@[0]) == len as int) by {
                lemma2_to64();
            }
            assert((b0 as int) % (cap as int) == hi as int) by {
                lemma_mod_add_multiples_vanish(hi as int, cap as int);
                lemma_small_mod(hi as nat, cap as nat);
            }
            assert((hi as int) * (p as int) + (rem as int) % (p as int) == rem as int);
            assert(vu64_decoded(buf@) == n as int);
        } else {
            assert(hi == 0 && mk == 0);
            assert(vu64_len_of(buf@[0]) == 9);
            assert(rem % p == rem as int) by {
                lemma_small_mod(rem as nat, p as nat);
            }
            assert(vu64_decoded(buf@) == (rem as int + offset64(9)) % (pow2(64) as int));
            assert(rem as int + offset64(9) == n as int);
            assert((n as int) % (pow2(64) as int) == n as int) by {
                lemma_small_mod(n as nat, pow2(64));
            }
        }
        assert forall|i: int| vu64_len_of_val(n as int) <= i < 9 implies buf@[i] == 0 by {
            assert(buf@[i] == mid[i]);
        }
    }
    Vu64(buf)
}

/// Decode a buffer back to its value. Total: every 9-byte buffer decodes,
/// canonical or not.
pub fn decode_vu64(n: Vu64) -> (r: u64)
    ensures
        r as int == vu64_decoded(n@),
{
    proof {
        lemma_offset64_vals();
        lemma_pow256_vals();
        lemma2_to64();
        lemma2_to64_rest();
    }
    let b0 = n.0[0];
    let len = decode_len_vu64(b0);
    let lenu = len as usize;
    let lo = be_read(&n.0, 1, lenu);
    proof {
        assert(n@.subrange(1, len as int) == n.0@.subrange(1, len as int));
        lemma_be_val_bounds(n@.subrange(1, len as int));
        lemma_pow256_le((len - 1) as nat, 8);
    }
    let off = offset_vu64(len);
    if len == 9 {
        let total = (lo + (off as u128)) % 0x1_0000_0000_0000_0000;
        proof {
            assert(pow2(64) == 0x1_0000_0000_0000_0000);
        }
        total as u64
    } else {
        let mk = marker_vu64(len);
        let pl0 = b0 % mk;
        let pw = (pow256x(lenu - 1)) as u64;
        proof {
            lemma_pow256_le((len - 1) as nat, 7);
            vstd::arithmetic::power2::lemma_pow2_pos((8 - len) as nat);
            lemma_tier64_capacity(len as int);
            let cap = pow2((8 - len) as nat) as int;
            let pwi = pw as int;
            assert((pl0 as int) * pwi <= (cap - 1) * pwi) by {
                vstd::arithmetic::mul::lemma_mul_inequality(pl0 as int, cap - 1, pwi);
            }
            assert((cap - 1) * pwi == cap * pwi - pwi) by {
                vstd::arithmetic::mul::lemma_mul_is_distributive_sub_other_way(pwi, cap, 1);
            }
            assert((pl0 as int) * pwi < pow2((8 - len) as nat) * pow256((len - 1) as nat));
            assert(pow2((8 - len) as nat) * pow256((len - 1) as nat) == pow2((7 * len) as nat))
                by {
                vstd::arithmetic::mul::lemma_mul_is_commutative(
                    pow2((8 - len) as nat) as int,
                    pow256((len - 1) as nat) as int,
                );
            }
            assert(pow2((7 * len) as nat) <= pow2(56)) by {
                if 7 * len < 56 {
                    vstd::arithmetic::power2::lemma_pow2_strictly_increases(
                        (7 * len) as nat,
                        56,
                    );
                }
            }
        }
        (pl0 as u64) * pw + (lo as u64) + off
    }
}

impl Vu64 {
    /// Encode the given value; same contract as `encode_vu64`.
    pub fn new(value: u64) -> (r: Vu64)
        ensures
            r@.len() == 9,
            vu64_len_of(r@[0]) == vu64_len_of_val(value as int),
            vu64_decoded(r@) == value as int,
            forall|i: int| vu64_len_of_val(value as int) <= i < 9 ==> r@[i] == 0,
    {
        encode_vu64(value)
    }

    /// Wrap a raw buffer, canonical or not; it decodes by `decode_vu64`.
    pub fn from_bytes(bytes: [u8; 9]) -> (r: Vu64)
        ensures
            r@ == bytes@,
    {
        Vu64(bytes)
    }

    /// Length in bytes of the used prefix, from the leading byte alone.
    pub fn len(&self) -> (r: u8)
        ensures
            r as int == vu64_len_of(self@[0]),
            1 <= r <= 9,
    {
        decode_len_vu64(self.0[0])
    }

    /// The stored value.
    pub fn get(&self) -> (r: u64)
        ensures
            r as int == vu64_decoded(self@),
    {
        decode_vu64(*self)
    }

    /// The raw byte buffer, padding included.
    pub fn bytes(&self) -> (r: [u8; 9])
        ensures
            r@ == self@,
    {
        self.0
    }

    /// The used prefix of the buffer: the bytes a stream should carry.
    pub fn as_slice(&self) -> (r: &[u8])
        ensures
            r@ == self@.subrange(0, vu64_len_of(self@[0])),
    {
        let len = decode_len_vu64(self.0[0]);
        slice_subrange(self.0.as_slice(), 0, len as usize)
    }
}

/// Length monotonicity: a larger value never gets a shorter encoding.
pub proof fn lemma_vu64_len_monotone(x1: u64, x2: u64)
    requires
        x1 <= x2,
    ensures
        vu64_len_of_val(x1 as int) <= vu64_len_of_val(x2 as int),
{
    lemma_offset64_vals();
}

/// Length minimality: the chosen length's tier contains the value, and no
/// shorter tier does.
pub proof fn lemma_vu64_len_minimal(n: u64)
    ensures
        1 <= vu64_len_of_val(n as int) <= 9,
        offset64(vu64_len_of_val(n as int)) <= n as int,
        vu64_len_of_val(n as int) < 9 ==> (n as int) < offset64(vu64_len_of_val(n as int) + 1),
        forall|l: int|
            1 <= l < vu64_len_of_val(n as int) ==> !(#[trigger] offset64(l) <= (n as int) && (n as int) < offset64(l + 1)),
{
    lemma_offset64_vals();
    assert forall|l: int| 1 <= l < vu64_len_of_val(n as int) implies !(#[trigger] offset64(l) <= (n as int) && (n as int) < offset64(l + 1)) by {
        lemma_offset64_vals();
    }
}

} // verus!

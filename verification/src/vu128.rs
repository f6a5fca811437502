//! Unsigned 128-bit VLQ encoding: 1 to 18 bytes. Lengths 1..8 follow the
//! 64-bit marker scheme. A zero leading byte hands disambiguation to the
//! second byte: its top bit set marks the 9-byte tier (an 8-byte body whose
//! rebased value needs that top bit); otherwise the marker scheme recurs in
//! the second byte, giving the extended tiers 10..16, rebased at `offset(9)`;
//! two zero bytes mark the raw 18-byte terminal tier, which carries the value
//! unrebased.

use vstd::prelude::*;

verus! {

use crate::digits::be_val;
use crate::digits::be_read;
use crate::digits::be_write;
use crate::digits::lemma_be_val_bounds;
use crate::digits::lemma_be_val_split_first;
use crate::digits::lemma_pow256_le;
use crate::digits::lemma_pow256_vals;
use crate::digits::lemma_split_at;
use crate::digits::pow256;
use crate::digits::pow256x;
use crate::tiers::lemma_offset128_vals;
use crate::tiers::lemma_pow2_high_vals;
use crate::tiers::lemma_tier64_capacity;
use crate::tiers::lemma_tier128_capacity;
use crate::tiers::offset128;
use vstd::arithmetic::div_mod::lemma_mod_add_multiples_vanish;
use vstd::arithmetic::div_mod::lemma_small_mod;
use vstd::arithmetic::power2::lemma2_to64;
use vstd::arithmetic::power2::lemma2_to64_rest;
use vstd::arithmetic::power2::pow2;
use vstd::slice::slice_subrange;

/// Encoded length as a function of the first two bytes. A non-zero leading
/// byte resolves lengths 1..8 by its leading zero bits; a zero leading byte
/// defers to the second: top bit set means 9, a lone marker bit means an
/// extended tier 10..16, and a second zero byte means the raw 18-byte tier.
pub open spec fn vu128_len_of(b0: u8, b1: u8) -> int {
    if b0 >= 0x80 {
        1
    } else if b0 >= 0x40 {
        2
    } else if b0 >= 0x20 {
        3
    } else if b0 >= 0x10 {
        4
    } else if b0 >= 0x08 {
        5
    } else if b0 >= 0x04 {
        6
    } else if b0 >= 0x02 {
        7
    } else if b0 >= 0x01 {
        8
    } else if b1 >= 0x80 {
        9
    } else if b1 >= 0x40 {
        10
    } else if b1 >= 0x20 {
        11
    } else if b1 >= 0x10 {
        12
    } else if b1 >= 0x08 {
        13
    } else if b1 >= 0x04 {
        14
    } else if b1 >= 0x02 {
        15
    } else if b1 >= 0x01 {
        16
    } else {
        18
    }
}

/// Encoded length as a function of the value. The 9-byte tier is reserved
/// for the values whose rebased remainder has the top bit of the 8-byte body
/// set — only there does the second byte's top bit announce the length — so
/// the values at or above `offset(9)` but below that window fall to the
/// extended tiers, and everything at or above `offset(17)` to the raw tier.
pub open spec fn vu128_len_of_val(n: int) -> int {
    if n < offset128(2) {
        1
    } else if n < offset128(3) {
        2
    } else if n < offset128(4) {
        3
    } else if n < offset128(5) {
        4
    } else if n < offset128(6) {
        5
    } else if n < offset128(7) {
        6
    } else if n < offset128(8) {
        7
    } else if n < offset128(9) {
        8
    } else if offset128(9) + pow2(63) <= n && n < offset128(9) + pow2(64) {
        9
    } else if n < offset128(11) {
        10
    } else if n < offset128(12) {
        11
    } else if n < offset128(13) {
        12
    } else if n < offset128(14) {
        13
    } else if n < offset128(15) {
        14
    } else if n < offset128(16) {
        15
    } else if n < offset128(17) {
        16
    } else {
        18
    }
}

/// The value an 18-byte buffer decodes to: payload bits of the byte holding
/// the marker, then the body bytes of the derived length, rebased by the
/// tier's offset; the raw tier is the plain big-endian value of its 16-byte
/// body.
pub open spec fn vu128_decoded(s: Seq<u8>) -> int
    recommends
        s.len() == 18,
{
    let l = vu128_len_of(s[0], s[1]);
    if l <= 8 {
        ((s[0] as int) % (pow2((8 - l) as nat) as int)) * pow256((l - 1) as nat) + be_val(
            s.subrange(1, l),
        ) + offset128(l)
    } else if l == 9 {
        be_val(s.subrange(1, 9)) + offset128(9)
    } else if l == 18 {
        be_val(s.subrange(2, 18))
    } else {
        ((s[1] as int) % (pow2((16 - l) as nat) as int)) * pow256((l - 2) as nat) + be_val(
            s.subrange(2, l),
        ) + offset128(l)
    }
}

/// An unsigned 128-bit integer in variable-length encoding. Only the first
/// `len()` bytes are meaningful; `encode_vu128` zeroes the rest.
#[derive(Clone, Copy, Debug)]
pub struct Vu128(pub(crate) [u8; 18]);

impl View for Vu128 {
    type V = Seq<u8>;

    closed spec fn view(&self) -> Seq<u8> {
        self.0@
    }
}

/// Length in bytes derived from the first two bytes alone; the second matters
/// only when the first is zero.
pub fn decode_len_vu128(b0: u8, b1: u8) -> (r: u8)
    ensures
        r as int == vu128_len_of(b0, b1),
        1 <= r <= 18,
        r != 17,
{
    if b0 >= 0x80 {
        1
    } else if b0 >= 0x40 {
        2
    } else if b0 >= 0x20 {
        3
    } else if b0 >= 0x10 {
        4
    } else if b0 >= 0x08 {
        5
    } else if b0 >= 0x04 {
        6
    } else if b0 >= 0x02 {
        7
    } else if b0 >= 0x01 {
        8
    } else if b1 >= 0x80 {
        9
    } else if b1 >= 0x40 {
        10
    } else if b1 >= 0x20 {
        11
    } else if b1 >= 0x10 {
        12
    } else if b1 >= 0x08 {
        13
    } else if b1 >= 0x04 {
        14
    } else if b1 >= 0x02 {
        15
    } else if b1 >= 0x01 {
        16
    } else {
        18
    }
}

/// Length in bytes that `encode_vu128` uses for `n`.
pub fn encode_len_vu128(n: u128) -> (r: u8)
    ensures
        r as int == vu128_len_of_val(n as int),
        1 <= r <= 18,
        r != 17,
{
    proof {
        lemma_offset128_vals();
        lemma_pow2_high_vals();
    }
    if n < 0x80 {
        1
    } else if n < 0x4080 {
        2
    } else if n < 0x20_4080 {
        3
    } else if n < 0x1020_4080 {
        4
    } else if n < 0x08_1020_4080 {
        5
    } else if n < 0x0408_1020_4080 {
        6
    } else if n < 0x02_0408_1020_4080 {
        7
    } else if n < 0x0102_0408_1020_4080 {
        8
    } else if 0x8102_0408_1020_4080 <= n && n < 0x01_0102_0408_1020_4080 {
        9
    } else if n < 0x40_0102_0408_1020_4080 {
        10
    } else if n < 0x2040_0102_0408_1020_4080 {
        11
    } else if n < 0x10_2040_0102_0408_1020_4080 {
        12
    } else if n < 0x0810_2040_0102_0408_1020_4080 {
        13
    } else if n < 0x04_0810_2040_0102_0408_1020_4080 {
        14
    } else if n < 0x0204_0810_2040_0102_0408_1020_4080 {
        15
    } else if n < 0x01_0204_0810_2040_0102_0408_1020_4080 {
        16
    } else {
        18
    }
}

/// The tier's offset: lower bound of the values encoded at length `l`.
fn offset_vu128(l: u8) -> (r: u128)
    requires
        1 <= l <= 16,
    ensures
        r as int == offset128(l as int),
{
    proof {
        lemma_offset128_vals();
    }
    match l {
        1 => 0,
        2 => 0x80,
        3 => 0x4080,
        4 => 0x20_4080,
        5 => 0x1020_4080,
        6 => 0x08_1020_4080,
        7 => 0x0408_1020_4080,
        8 => 0x02_0408_1020_4080,
        9 => 0x0102_0408_1020_4080,
        10 => 0x0102_0408_1020_4080,
        11 => 0x40_0102_0408_1020_4080,
        12 => 0x2040_0102_0408_1020_4080,
        13 => 0x10_2040_0102_0408_1020_4080,
        14 => 0x0810_2040_0102_0408_1020_4080,
        15 => 0x04_0810_2040_0102_0408_1020_4080,
        _ => 0x0204_0810_2040_0102_0408_1020_4080,
    }
}

/// The marker bit of a length-`l` leading byte, lengths 1..8: `2^(8 - l)`.
fn marker_vu128_first(l: u8) -> (r: u8)
    requires
        1 <= l <= 8,
    ensures
        r as int == pow2((8 - l) as nat),
{
    proof {
        lemma2_to64();
    }
    match l {
        1 => 0x80,
        2 => 0x40,
        3 => 0x20,
        4 => 0x10,
        5 => 0x08,
        6 => 0x04,
        7 => 0x02,
        _ => 0x01,
    }
}

/// The marker bit of a length-`l` second byte, extended lengths 10..16:
/// `2^(16 - l)`.
fn marker_vu128_second(l: u8) -> (r: u8)
    requires
        10 <= l <= 16,
    ensures
        r as int == pow2((16 - l) as nat),
{
    proof {
        lemma2_to64();
    }
    match l {
        10 => 0x40,
        11 => 0x20,
        12 => 0x10,
        13 => 0x08,
        14 => 0x04,
        15 => 0x02,
        _ => 0x01,
    }
}

/// Encode `n`. The resulting buffer's first two bytes determine the length
/// the tier rules assign to `n`, the buffer decodes back to `n`, and the
/// bytes past the used length are zero.
pub fn encode_vu128(n: u128) -> (r: Vu128)
    ensures
        r@.len() == 18,
        vu128_len_of(r@[0], r@[1]) == vu128_len_of_val(n as int),
        vu128_decoded(r@) == n as int,
        forall|i: int| vu128_len_of_val(n as int) <= i < 18 ==> r@[i] == 0,
{
    proof {
        lemma_offset128_vals();
        lemma_pow2_high_vals();
        lemma_pow256_vals();
        lemma2_to64();
        lemma2_to64_rest();
    }
    let len = encode_len_vu128(n);
    let lenu = len as usize;
    let mut buf = [0u8; 18];
    if len <= 8 {
        let off = (offset_vu128(len)) as u64;
        let rem: u128 = n - (off as u128);
        let p = pow256x(lenu - 1);
        proof {
            lemma_tier64_capacity(len as int);
            assert(offset128(len as int + 1) == offset128(len as int) + pow2((7 * len) as nat));
            assert(rem < pow256((len - 1) as nat) * pow2((8 - len) as nat));
            lemma_split_at(rem as int, p as int, pow2((8 - len) as nat) as int);
        }
        let hi = (rem / p) as u8;
        let mk = marker_vu128_first(len);
        be_write(&mut buf, 1, lenu, rem % p);
        let ghost mid = buf@;
        buf[0] = mk + hi;
        proof {
            assert(buf@ == mid.update(0, (mk + hi) as u8));
            let body = buf@.subrange(1, len as int);
            assert(body =~= mid.subrange(1, len as int));
            assert(be_val(body) == rem % p);
            let b0 = buf@[0];
            let cap = pow2((8 - len) as nat);
            assert(cap <= 0x80);
            assert(b0 == cap + hi);
            assert(vu128_len_of(buf@[0], buf@[1]) == len as int) by {
                lemma2_to64();
            }
            assert((b0 as int) % (cap as int) == hi as int) by {
                lemma_mod_add_multiples_vanish(hi as int, cap as int);
                lemma_small_mod(hi as nat, cap as nat);
            }
            assert((hi as int) * (p as int) + (rem as int) % (p as int) == rem as int);
            assert(vu128_decoded(buf@) == n as int);
            assert forall|i: int| vu128_len_of_val(n as int) <= i < 18 implies buf@[i] == 0 by {
                assert(buf@[i] == mid[i]);
            }
        }
    } else if len == 9 {
        let off = offset_vu128(9);
        let rem: u128 = n - off;
        be_write(&mut buf, 1, 9, rem);
        proof {
            let body = buf@.subrange(1, 9);
            assert(be_val(body) == rem);
            assert(buf@[0] == 0);
            lemma_be_val_split_first(body);
            assert(body[0] == buf@[1]);
            assert(be_val(body.subrange(1, 8)) < pow256(7)) by {
                lemma_be_val_bounds(body.subrange(1, 8));
            }
            assert(buf@[1] >= 0x80) by {
                if buf@[1] < 0x80 {
                    assert(be_val(body) <= 127 * pow256(7) + (pow256(7) - 1)) by {
                        vstd::arithmetic::mul::lemma_mul_inequality(
                            body[0] as int,
                            127,
                            pow256(7) as int,
                        );
                    }
                }
            }
            assert(vu128_len_of(buf@[0], buf@[1]) == 9);
            assert(vu128_decoded(buf@) == rem + offset128(9));
            assert forall|i: int| vu128_len_of_val(n as int) <= i < 18 implies buf@[i] == 0 by {}
        }
    } else if len == 18 {
        be_write(&mut buf, 2, 18, n);
        proof {
            assert(buf@[0] == 0 && buf@[1] == 0);
            assert(vu128_len_of(buf@[0], buf@[1]) == 18);
            assert(be_val(buf@.subrange(2, 18)) == n);
            assert(vu128_decoded(buf@) == n as int);
            assert forall|i: int| vu128_len_of_val(n as int) <= i < 18 implies buf@[i] == 0 by {}
        }
    } else {
        let off = offset_vu128(len);
        let rem: u128 = n - off;
        let p = pow256x(lenu - 2);
        proof {
            lemma_tier128_capacity(len as int);
            assert(rem < pow256((len - 2) as nat) * pow2((16 - len) as nat));
            lemma_split_at(rem as int, p as int, pow2((16 - len) as nat) as int);
        }
        let hi = (rem / p) as u8;
        let mk = marker_vu128_second(len);
        be_write(&mut buf, 2, lenu, rem % p);
        let ghost mid = buf@;
        buf[1] = mk + hi;
        proof {
            assert(buf@ == mid.update(1, (mk + hi) as u8));
            let body = buf@.subrange(2, len as int);
            assert(body =~= mid.subrange(2, len as int));
            assert(be_val(body) == rem % p);
            assert(buf@[0] == 0);
            let b1 = buf@[1];
            let cap = pow2((16 - len) as nat);
            assert(cap <= 0x40);
            assert(b1 == cap + hi);
            assert(vu128_len_of(buf@[0], buf@[1]) == len as int) by {
                lemma2_to64();
            }
            assert((b1 as int) % (cap as int) == hi as int) by {
                lemma_mod_add_multiples_vanish(hi as int, cap as int);
                lemma_small_mod(hi as nat, cap as nat);
            }
            assert((hi as int) * (p as int) + (rem as int) % (p as int) == rem as int);
            assert(vu128_decoded(buf@) == n as int);
            assert forall|i: int| vu128_len_of_val(n as int) <= i < 18 implies buf@[i] == 0 by {
                assert(buf@[i] == mid[i]);
            }
        }
    }
    Vu128(buf)
}

/// Decode a buffer back to its value. Total: every 18-byte buffer decodes,
/// canonical or not.
pub fn decode_vu128(n: Vu128) -> (r: u128)
    ensures
        r as int == vu128_decoded(n@),
{
    proof {
        lemma_offset128_vals();
        lemma_pow2_high_vals();
        lemma_pow256_vals();
        lemma2_to64();
        lemma2_to64_rest();
    }
    let b0 = n.0[0];
    let b1 = n.0[1];
    let len = decode_len_vu128(b0, b1);
    let lenu = len as usize;
    if len <= 8 {
        let lo = be_read(&n.0, 1, lenu);
        proof {
            assert(n@.subrange(1, len as int) == n.0@.subrange(1, len as int));
            lemma_be_val_bounds(n@.subrange(1, len as int));
            lemma_pow256_le((len - 1) as nat, 7);
            vstd::arithmetic::power2::lemma_pow2_pos((8 - len) as nat);
            lemma_tier64_capacity(len as int);
        }
        let off = (offset_vu128(len)) as u64;
        let mk = marker_vu128_first(len);
        let pl0 = b0 % mk;
        let pw = (pow256x(lenu - 1)) as u64;
        proof {
            let cap = pow2((8 - len) as nat) as int;
            let pwi = pw as int;
            assert((pl0 as int) * pwi <= (cap - 1) * pwi) by {
                vstd::arithmetic::mul::lemma_mul_inequality(pl0 as int, cap - 1, pwi);
            }
            assert((cap - 1) * pwi == cap * pwi - pwi) by {
                vstd::arithmetic::mul::lemma_mul_is_distributive_sub_other_way(pwi, cap, 1);
            }
            assert(cap * pwi == pow2((7 * len) as nat)) by {
                vstd::arithmetic::mul::lemma_mul_is_commutative(cap, pwi);
            }
            assert(pow2((7 * len) as nat) <= pow2(56)) by {
                if 7 * len < 56 {
                    vstd::arithmetic::power2::lemma_pow2_strictly_increases((7 * len) as nat, 56);
                }
            }
        }
        ((pl0 as u64) * pw + (lo as u64) + off) as u128
    } else if len == 9 {
        let lo = be_read(&n.0, 1, 9);
        proof {
            assert(n@.subrange(1, 9) == n.0@.subrange(1, 9));
            lemma_be_val_bounds(n@.subrange(1, 9));
        }
        lo + offset_vu128(9)
    } else if len == 18 {
        let lo = be_read(&n.0, 2, 18);
        proof {
            assert(n@.subrange(2, 18) == n.0@.subrange(2, 18));
        }
        lo
    } else {
        let lo = be_read(&n.0, 2, lenu);
        proof {
            assert(n@.subrange(2, len as int) == n.0@.subrange(2, len as int));
            lemma_be_val_bounds(n@.subrange(2, len as int));
            lemma_pow256_le((len - 2) as nat, 14);
            vstd::arithmetic::power2::lemma_pow2_pos((16 - len) as nat);
            lemma_tier128_capacity(len as int);
        }
        let off = offset_vu128(len);
        let mk = marker_vu128_second(len);
        let pl1 = b1 % mk;
        let pw = pow256x(lenu - 2);
        proof {
            let cap = pow2((16 - len) as nat) as int;
            let pwi = pw as int;
            assert((pl1 as int) * pwi <= (cap - 1) * pwi) by {
                vstd::arithmetic::mul::lemma_mul_inequality(pl1 as int, cap - 1, pwi);
            }
            assert((cap - 1) * pwi == cap * pwi - pwi) by {
                vstd::arithmetic::mul::lemma_mul_is_distributive_sub_other_way(pwi, cap, 1);
            }
            assert(cap * pwi == pow2((7 * len) as nat)) by {
                vstd::arithmetic::mul::lemma_mul_is_commutative(cap, pwi);
            }
            assert(pow2((7 * len) as nat) <= pow2(112)) by {
                if 7 * len < 112 {
                    vstd::arithmetic::power2::lemma_pow2_strictly_increases((7 * len) as nat, 112);
                }
            }
        }
        (pl1 as u128) * pw + lo + off
    }
}

impl Vu128 {
    /// Encode the given value; same contract as `encode_vu128`.
    pub fn new(value: u128) -> (r: Vu128)
        ensures
            r@.len() == 18,
            vu128_len_of(r@[0], r@[1]) == vu128_len_of_val(value as int),
            vu128_decoded(r@) == value as int,
            forall|i: int| vu128_len_of_val(value as int) <= i < 18 ==> r@[i] == 0,
    {
        encode_vu128(value)
    }

    /// Wrap a raw buffer, canonical or not; it decodes by `decode_vu128`.
    pub fn from_bytes(bytes: [u8; 18]) -> (r: Vu128)
        ensures
            r@ == bytes@,
    {
        Vu128(bytes)
    }

    /// Length in bytes of the used prefix, from the first two bytes alone.
    pub fn len(&self) -> (r: u8)
        ensures
            r as int == vu128_len_of(self@[0], self@[1]),
            1 <= r <= 18,
    {
        decode_len_vu128(self.0[0], self.0[1])
    }

    /// The stored value.
    pub fn get(&self) -> (r: u128)
        ensures
            r as int == vu128_decoded(self@),
    {
        decode_vu128(*self)
    }

    /// The raw byte buffer, padding included.
    pub fn bytes(&self) -> (r: [u8; 18])
        ensures
            r@ == self@,
    {
        self.0
    }

    /// The used prefix of the buffer: the bytes a stream should carry.
    pub fn as_slice(&self) -> (r: &[u8])
        ensures
            r@ == self@.subrange(0, vu128_len_of(self@[0], self@[1])),
    {
        let len = decode_len_vu128(self.0[0], self.0[1]);
        slice_subrange(self.0.as_slice(), 0, len as usize)
    }
}

/// Length monotonicity across the 128-bit tiers. The 9-byte tier sits inside
/// the extended range — a value just below its window takes 10 bytes while
/// the window itself takes 9 — so exactly those pairs are excluded.
pub proof fn lemma_vu128_len_monotone(x1: u128, x2: u128)
    requires
        x1 <= x2,
        !(offset128(9) <= (x1 as int) && (x1 as int) < offset128(9) + pow2(63) && offset128(9)
            + pow2(63) <= (x2 as int) && (x2 as int) < offset128(9) + pow2(64)),
    ensures
        vu128_len_of_val(x1 as int) <= vu128_len_of_val(x2 as int),
{
    lemma_offset128_vals();
    lemma_pow2_high_vals();
}

/// Length minimality: the chosen length's tier contains the value; no
/// shorter marked tier contains it, and the 9-byte tier only through its
/// reserved window.
pub proof fn lemma_vu128_len_minimal(n: u128)
    ensures
        1 <= vu128_len_of_val(n as int) <= 18,
        vu128_len_of_val(n as int) != 17,
        vu128_len_of_val(n as int) <= 8 ==> offset128(vu128_len_of_val(n as int)) <= n as int
            && (n as int) < offset128(vu128_len_of_val(n as int) + 1),
        vu128_len_of_val(n as int) == 9 ==> offset128(9) + pow2(63) <= n as int && (n as int)
            < offset128(9) + pow2(64),
        10 <= vu128_len_of_val(n as int) <= 16 ==> offset128(vu128_len_of_val(n as int)) <= n as int
            && (n as int) < offset128(vu128_len_of_val(n as int) + 1),
        vu128_len_of_val(n as int) == 18 ==> offset128(17) <= n as int,
        forall|l: int|
            1 <= l < vu128_len_of_val(n as int) && l <= 8 ==> !(#[trigger] offset128(l) <= (
            n as int) && (n as int) < offset128(l + 1)),
        vu128_len_of_val(n as int) > 9 ==> !(offset128(9) + pow2(63) <= (n as int) && (n as int)
            < offset128(9) + pow2(64)),
{
    lemma_offset128_vals();
    lemma_pow2_high_vals();
    assert forall|l: int| 1 <= l < vu128_len_of_val(n as int) && l <= 8 implies !(
    #[trigger] offset128(l) <= (n as int) && (n as int) < offset128(l + 1)) by {
        lemma_offset128_vals();
    }
}

} // verus!

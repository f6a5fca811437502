//! Unsigned 32-bit VLQ encoding: 1 to 5 bytes. Lengths 1..4 follow the same
//! marker scheme as the 64-bit class; length 5 is the class's terminal tier,
//! still marked, whose decoded sum truncates to 32 bits.

use vstd::prelude::*;

verus! {

use crate::digits::be_val;
use crate::digits::be_read;
use crate::digits::be_write;
use crate::digits::lemma_be_val_bounds;
use crate::digits::lemma_pow256_le;
use crate::digits::lemma_pow256_vals;
use crate::digits::lemma_split_at;
use crate::digits::pow256;
use crate::digits::pow256x;
use crate::tiers::lemma_offset64_vals;
use crate::tiers::lemma_tier64_capacity;
use crate::tiers::offset64;
use vstd::arithmetic::div_mod::lemma_mod_add_multiples_vanish;
use vstd::arithmetic::div_mod::lemma_small_mod;
use vstd::arithmetic::power2::lemma2_to64;
use vstd::arithmetic::power2::pow2;
use vstd::slice::slice_subrange;

/// Encoded length as a function of the leading byte: one more than the count
/// of its leading zero bits, capped at the class maximum of 5.
pub open spec fn vu32_len_of(b0: u8) -> int {
    if b0 >= 0x80 {
        1
    } else if b0 >= 0x40 {
        2
    } else if b0 >= 0x20 {
        3
    } else if b0 >= 0x10 {
        4
    } else {
        5
    }
}

/// Encoded length as a function of the value: the smallest length whose tier
/// contains the value.
pub open spec fn vu32_len_of_val(n: int) -> int {
    if n < offset64(2) {
        1
    } else if n < offset64(3) {
        2
    } else if n < offset64(4) {
        3
    } else if n < offset64(5) {
        4
    } else {
        5
    }
}

/// The value a 5-byte buffer decodes to. The terminal tier's sum can exceed
/// 32 bits on non-canonical input, so it reduces modulo `2^32`; shorter tiers
/// cannot.
pub open spec fn vu32_decoded(s: Seq<u8>) -> int
    recommends
        s.len() == 5,
{
    let l = vu32_len_of(s[0]);
    let raw = ((s[0] as int) % (pow2((8 - l) as nat) as int)) * pow256((l - 1) as nat) + be_val(
        s.subrange(1, l),
    ) + offset64(l);
    if l == 5 {
        raw % (pow2(32) as int)
    } else {
        raw
    }
}

/// An unsigned 32-bit integer in variable-length encoding. Only the first
/// `len()` bytes are meaningful; `encode_vu32` zeroes the rest.
#[derive(Clone, Copy, Debug)]
pub struct Vu32(pub(crate) [u8; 5]);

impl View for Vu32 {
    type V = Seq<u8>;

    closed spec fn view(&self) -> Seq<u8> {
        self.0@
    }
}

/// Length in bytes derived from the leading byte alone.
pub fn decode_len_vu32(b0: u8) -> (r: u8)
    ensures
        r as int == vu32_len_of(b0),
        1 <= r <= 5,
{
    if b0 >= 0x80 {
        1
    } else if b0 >= 0x40 {
        2
    } else if b0 >= 0x20 {
        3
    } else if b0 >= 0x10 {
        4
    } else {
        5
    }
}

/// Length in bytes that `encode_vu32` uses for `n`.
pub fn encode_len_vu32(n: u32) -> (r: u8)
    ensures
        r as int == vu32_len_of_val(n as int),
        1 <= r <= 5,
{
    proof {
        lemma_offset64_vals();
    }
    if n < 0x80 {
        1
    } else if n < 0x4080 {
        2
    } else if n < 0x20_4080 {
        3
    } else if n < 0x1020_4080 {
        4
    } else {
        5
    }
}

/// The tier's offset: lower bound of the values encoded at length `l`.
fn offset_vu32(l: u8) -> (r: u32)
    requires
        1 <= l <= 5,
    ensures
        r as int == offset64(l as int),
{
    proof {
        lemma_offset64_vals();
    }
    match l {
        1 => 0,
        2 => 0x80,
        3 => 0x4080,
        4 => 0x20_4080,
        _ => 0x1020_4080,
    }
}

/// The marker bit of a length-`l` leading byte: `2^(8 - l)`.
fn marker_vu32(l: u8) -> (r: u8)
    requires
        1 <= l <= 5,
    ensures
        r as int == pow2((8 - l) as nat),
{
    proof {
        lemma2_to64();
    }
    match l {
        1 => 0x80,
        2 => 0x40,
        3 => 0x20,
        4 => 0x10,
        _ => 0x08,
    }
}

/// Encode `n`. The resulting buffer's leading byte determines the minimal
/// length for `n`, the buffer decodes back to `n`, and the bytes past the
/// used length are zero.
pub fn encode_vu32(n: u32) -> (r: Vu32)
    ensures
        r@.len() == 5,
        vu32_len_of(r@[0]) == vu32_len_of_val(n as int),
        vu32_decoded(r@) == n as int,
        forall|i: int| vu32_len_of_val(n as int) <= i < 5 ==> r@[i] == 0,
{
    proof {
        lemma_offset64_vals();
        lemma_pow256_vals();
        lemma2_to64();
    }
    let len = encode_len_vu32(n);
    let off = offset_vu32(len);
    let rem: u128 = (n - off) as u128;
    let lenu = len as usize;
    let p = pow256x(lenu - 1);
    proof {
        lemma_tier64_capacity(len as int);
        if len <= 4 {
            assert(rem < pow256((len - 1) as nat) * pow2((8 - len) as nat));
        } else {
            assert(rem < pow256(4) * pow2(3));
        }
        lemma_split_at(rem as int, p as int, pow2((8 - len) as nat) as int);
    }
    let hi = (rem / p) as u8;
    let mk = marker_vu32(len);
    let mut buf = [0u8; 5];
    be_write(&mut buf, 1, lenu, rem % p);
    let ghost mid = buf@;
    buf[0] = mk + hi;
    proof {
        assert(buf@ == mid.update(0, (mk + hi) as u8));
        let body = buf@.subrange(1, len as int);
        assert(body =~= mid.subrange(1, len as int));
        assert(be_val(body) == rem % p);
        let b0 = buf@[0];
        let cap = pow2((8 - len) as nat);
        assert(cap <= 0x80);
        assert(b0 == cap + hi);
        assert(vu32_len_of(buf@[0]) == len as int) by {
            lemma2_to64();
        }
        assert((b0 as int) % (cap as int) == hi as int) by {
            lemma_mod_add_multiples_vanish(hi as int, cap as int);
            lemma_small_mod(hi as nat, cap as nat);
        }
        assert((hi as int) * (p as int) + (rem as int) % (p as int) == rem as int);
        if len == 5 {
            assert((n as int) % (pow2(32) as int) == n as int) by {
                lemma_small_mod(n as nat, pow2(32));
            }
        }
        assert(vu32_decoded(buf@) == n as int);
        assert forall|i: int| vu32_len_of_val(n as int) <= i < 5 implies buf@[i] == 0 by {
            assert(buf@[i] == mid[i]);
        }
    }
    Vu32(buf)
}

/// Decode a buffer back to its value. Total: every 5-byte buffer decodes,
/// canonical or not.
pub fn decode_vu32(n: Vu32) -> (r: u32)
    ensures
        r as int == vu32_decoded(n@),
{
    proof {
        lemma_offset64_vals();
        lemma_pow256_vals();
        lemma2_to64();
    }
    let b0 = n.0[0];
    let len = decode_len_vu32(b0);
    let lenu = len as usize;
    let lo = be_read(&n.0, 1, lenu);
    proof {
        assert(n@.subrange(1, len as int) == n.0@.subrange(1, len as int));
        lemma_be_val_bounds(n@.subrange(1, len as int));
        lemma_pow256_le((len - 1) as nat, 4);
    }
    let off = offset_vu32(len);
    let mk = marker_vu32(len);
    let pl0 = b0 % mk;
    let pw = (pow256x(lenu - 1)) as u64;
    proof {
        vstd::arithmetic::power2::lemma_pow2_pos((8 - len) as nat);
        lemma_tier64_capacity(len as int);
        let cap = pow2((8 - len) as nat) as int;
        let pwi = pw as int;
        assert((pl0 as int) * pwi <= (cap - 1) * pwi) by {
            vstd::arithmetic::mul::lemma_mul_inequality(pl0 as int, cap - 1, pwi);
        }
        assert((cap - 1) * pwi == cap * pwi - pwi) by {
            vstd::arithmetic::mul::lemma_mul_is_distributive_sub_other_way(pwi, cap, 1);
        }
        assert(cap * pwi == pow2((7 * len) as nat)) by {
            vstd::arithmetic::mul::lemma_mul_is_commutative(cap, pwi);
        }
        assert(pow2((7 * len) as nat) <= pow2(35)) by {
            if 7 * len < 35 {
                vstd::arithmetic::power2::lemma_pow2_strictly_increases((7 * len) as nat, 35);
            }
        }
        lemma2_to64();
        vstd::arithmetic::power2::lemma2_to64_rest();
    }
    let val = (pl0 as u64) * pw + (lo as u64) + (off as u64);
    if len == 5 {
        let total = val % 0x1_0000_0000;
        proof {
            assert(pow2(32) == 0x1_0000_0000);
        }
        total as u32
    } else {
        proof {
            assert(val < 0x1_0000_0000);
        }
        val as u32
    }
}

impl Vu32 {
    /// Encode the given value; same contract as `encode_vu32`.
    pub fn new(value: u32) -> (r: Vu32)
        ensures
            r@.len() == 5,
            vu32_len_of(r@[0]) == vu32_len_of_val(value as int),
            vu32_decoded(r@) == value as int,
            forall|i: int| vu32_len_of_val(value as int) <= i < 5 ==> r@[i] == 0,
    {
        encode_vu32(value)
    }

    /// Wrap a raw buffer, canonical or not; it decodes by `decode_vu32`.
    pub fn from_bytes(bytes: [u8; 5]) -> (r: Vu32)
        ensures
            r@ == bytes@,
    {
        Vu32(bytes)
    }

    /// Length in bytes of the used prefix, from the leading byte alone.
    pub fn len(&self) -> (r: u8)
        ensures
            r as int == vu32_len_of(self@[0]),
            1 <= r <= 5,
    {
        decode_len_vu32(self.0[0])
    }

    /// The stored value.
    pub fn get(&self) -> (r: u32)
        ensures
            r as int == vu32_decoded(self@),
    {
        decode_vu32(*self)
    }

    /// The raw byte buffer, padding included.
    pub fn bytes(&self) -> (r: [u8; 5])
        ensures
            r@ == self@,
    {
        self.0
    }

    /// The used prefix of the buffer: the bytes a stream should carry.
    pub fn as_slice(&self) -> (r: &[u8])
        ensures
            r@ == self@.subrange(0, vu32_len_of(self@[0])),
    {
        let len = decode_len_vu32(self.0[0]);
        slice_subrange(self.0.as_slice(), 0, len as usize)
    }
}

/// Length monotonicity: a larger value never gets a shorter encoding.
pub proof fn lemma_vu32_len_monotone(x1: u32, x2: u32)
    requires
        x1 <= x2,
    ensures
        vu32_len_of_val(x1 as int) <= vu32_len_of_val(x2 as int),
{
    lemma_offset64_vals();
}

/// Length minimality: the chosen length's tier contains the value, and no
/// shorter tier does.
pub proof fn lemma_vu32_len_minimal(n: u32)
    ensures
        1 <= vu32_len_of_val(n as int) <= 5,
        offset64(vu32_len_of_val(n as int)) <= n as int,
        vu32_len_of_val(n as int) < 5 ==> (n as int) < offset64(vu32_len_of_val(n as int) + 1),
        forall|l: int|
            1 <= l < vu32_len_of_val(n as int) ==> !(#[trigger] offset64(l) <= (n as int) && (
            n as int) < offset64(l + 1)),
{
    lemma_offset64_vals();
    assert forall|l: int| 1 <= l < vu32_len_of_val(n as int) implies !(#[trigger] offset64(l) <= (
    n as int) && (n as int) < offset64(l + 1)) by {
        lemma_offset64_vals();
    }
}

} // verus!

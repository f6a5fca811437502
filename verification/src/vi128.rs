//! Signed 128-bit VLQ encoding: the value is zigzag-mapped to an unsigned
//! 128-bit integer and encoded by the unsigned scheme, so small magnitudes of
//! either sign stay short.

use vstd::prelude::*;

verus! {

use crate::vu128::decode_vu128;
use crate::vu128::encode_vu128;
use crate::vu128::vu128_decoded;
use crate::vu128::vu128_len_of;
use crate::vu128::vu128_len_of_val;
use crate::vu128::Vu128;
use crate::zigzag::zigzag_to_signed;
use crate::zigzag::zigzag_to_unsigned;

/// Zigzag map an `i128` onto `u128`: 0, -1, 1, -2, 2, ... map to 0, 1, 2, 3,
/// 4, ...
pub fn zigzag_encode_i128(n: i128) -> (r: u128)
    ensures
        r as int == zigzag_to_unsigned(n as int),
{
    if n >= 0 {
        (n as u128) * 2
    } else {
        ((-(n + 1)) as u128) * 2 + 1
    }
}

/// Invert the zigzag map: even values to non-negative integers, odd values to
/// negative ones.
pub fn zigzag_decode_i128(u: u128) -> (r: i128)
    ensures
        r as int == zigzag_to_signed(u as int),
{
    if u % 2 == 0 {
        (u / 2) as i128
    } else {
        -((u / 2) as i128) - 1
    }
}

/// A signed 128-bit integer in variable-length encoding, via zigzag.
#[derive(Clone, Copy, Debug)]
pub struct Vi128(pub(crate) Vu128);

impl View for Vi128 {
    type V = Seq<u8>;

    closed spec fn view(&self) -> Seq<u8> {
        self.0@
    }
}

/// Encode `n`: zigzag map, then unsigned encode. The buffer decodes back to
/// the zigzag counterpart of `n`, at its minimal length.
pub fn encode_vi128(n: i128) -> (r: Vi128)
    ensures
        r@.len() == 18,
        vu128_len_of(r@[0], r@[1]) == vu128_len_of_val(zigzag_to_unsigned(n as int)),
        vu128_decoded(r@) == zigzag_to_unsigned(n as int),
        forall|i: int| vu128_len_of_val(zigzag_to_unsigned(n as int)) <= i < 18 ==> r@[i] == 0,
{
    Vi128(encode_vu128(zigzag_encode_i128(n)))
}

/// Decode a buffer back to its signed value: unsigned decode, then inverse
/// zigzag. Total over all 18-byte buffers.
pub fn decode_vi128(n: Vi128) -> (r: i128)
    ensures
        r as int == zigzag_to_signed(vu128_decoded(n@)),
{
    zigzag_decode_i128(decode_vu128(n.0))
}

impl Vi128 {
    /// Encode the given value; same contract as `encode_vi128`.
    pub fn new(value: i128) -> (r: Vi128)
        ensures
            r@.len() == 18,
            vu128_len_of(r@[0], r@[1]) == vu128_len_of_val(zigzag_to_unsigned(value as int)),
            vu128_decoded(r@) == zigzag_to_unsigned(value as int),
            forall|i: int|
                vu128_len_of_val(zigzag_to_unsigned(value as int)) <= i < 18 ==> r@[i] == 0,
    {
        encode_vi128(value)
    }

    /// Length in bytes of the used prefix, from the leading byte alone.
    pub fn len(&self) -> (r: u8)
        ensures
            r as int == vu128_len_of(self@[0], self@[1]),
            1 <= r <= 18,
    {
        self.0.len()
    }

    /// The stored value.
    pub fn get(&self) -> (r: i128)
        ensures
            r as int == zigzag_to_signed(vu128_decoded(self@)),
    {
        decode_vi128(*self)
    }

    /// The raw byte buffer, padding included.
    pub fn bytes(&self) -> (r: [u8; 18])
        ensures
            r@ == self@,
    {
        self.0.bytes()
    }

    /// The used prefix of the buffer: the bytes a stream should carry.
    pub fn as_slice(&self) -> (r: &[u8])
        ensures
            r@ == self@.subrange(0, vu128_len_of(self@[0], self@[1])),
    {
        self.0.as_slice()
    }
}

} // verus!

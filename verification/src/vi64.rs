//! Signed 64-bit VLQ encoding: the value is zigzag-mapped to an unsigned
//! 64-bit integer and encoded by the unsigned scheme, so small magnitudes of
//! either sign stay short.

use vstd::prelude::*;

verus! {

use crate::vu64::decode_vu64;
use crate::vu64::encode_vu64;
use crate::vu64::vu64_decoded;
use crate::vu64::vu64_len_of;
use crate::vu64::vu64_len_of_val;
use crate::vu64::Vu64;
use crate::zigzag::zigzag_to_signed;
use crate::zigzag::zigzag_to_unsigned;

/// Zigzag map an `i64` onto `u64`: 0, -1, 1, -2, 2, ... map to 0, 1, 2, 3,
/// 4, ...
pub fn zigzag_encode_i64(n: i64) -> (r: u64)
    ensures
        r as int == zigzag_to_unsigned(n as int),
{
    if n >= 0 {
        (n as u64) * 2
    } else {
        ((-(n + 1)) as u64) * 2 + 1
    }
}

/// Invert the zigzag map: even values to non-negative integers, odd values to
/// negative ones.
pub fn zigzag_decode_i64(u: u64) -> (r: i64)
    ensures
        r as int == zigzag_to_signed(u as int),
{
    if u % 2 == 0 {
        (u / 2) as i64
    } else {
        -((u / 2) as i64) - 1
    }
}

/// A signed 64-bit integer in variable-length encoding, via zigzag.
#[derive(Clone, Copy, Debug)]
pub struct Vi64(pub(crate) Vu64);

impl View for Vi64 {
    type V = Seq<u8>;

    closed spec fn view(&self) -> Seq<u8> {
        self.0@
    }
}

/// Encode `n`: zigzag map, then unsigned encode. The buffer decodes back to
/// the zigzag counterpart of `n`, at its minimal length.
pub fn encode_vi64(n: i64) -> (r: Vi64)
    ensures
        r@.len() == 9,
        vu64_len_of(r@[0]) == vu64_len_of_val(zigzag_to_unsigned(n as int)),
        vu64_decoded(r@) == zigzag_to_unsigned(n as int),
        forall|i: int| vu64_len_of_val(zigzag_to_unsigned(n as int)) <= i < 9 ==> r@[i] == 0,
{
    Vi64(encode_vu64(zigzag_encode_i64(n)))
}

/// Decode a buffer back to its signed value: unsigned decode, then inverse
/// zigzag. Total over all 9-byte buffers.
pub fn decode_vi64(n: Vi64) -> (r: i64)
    ensures
        r as int == zigzag_to_signed(vu64_decoded(n@)),
{
    zigzag_decode_i64(decode_vu64(n.0))
}

impl Vi64 {
    /// Encode the given value; same contract as `encode_vi64`.
    pub fn new(value: i64) -> (r: Vi64)
        ensures
            r@.len() == 9,
            vu64_len_of(r@[0]) == vu64_len_of_val(zigzag_to_unsigned(value as int)),
            vu64_decoded(r@) == zigzag_to_unsigned(value as int),
            forall|i: int|
                vu64_len_of_val(zigzag_to_unsigned(value as int)) <= i < 9 ==> r@[i] == 0,
    {
        encode_vi64(value)
    }

    /// Length in bytes of the used prefix, from the leading byte alone.
    pub fn len(&self) -> (r: u8)
        ensures
            r as int == vu64_len_of(self@[0]),
            1 <= r <= 9,
    {
        self.0.len()
    }

    /// The stored value.
    pub fn get(&self) -> (r: i64)
        ensures
            r as int == zigzag_to_signed(vu64_decoded(self@)),
    {
        decode_vi64(*self)
    }

    /// The raw byte buffer, padding included.
    pub fn bytes(&self) -> (r: [u8; 9])
        ensures
            r@ == self@,
    {
        self.0.bytes()
    }

    /// The used prefix of the buffer: the bytes a stream should carry.
    pub fn as_slice(&self) -> (r: &[u8])
        ensures
            r@ == self@.subrange(0, vu64_len_of(self@[0])),
    {
        self.0.as_slice()
    }
}

} // verus!

//! Signed 32-bit VLQ encoding: the value is zigzag-mapped to an unsigned
//! 32-bit integer and encoded by the unsigned scheme, so small magnitudes of
//! either sign stay short.

use vstd::prelude::*;

verus! {

use crate::vu32::decode_vu32;
use crate::vu32::encode_vu32;
use crate::vu32::vu32_decoded;
use crate::vu32::vu32_len_of;
use crate::vu32::vu32_len_of_val;
use crate::vu32::Vu32;
use crate::zigzag::zigzag_to_signed;
use crate::zigzag::zigzag_to_unsigned;

/// Zigzag map an `i32` onto `u32`: 0, -1, 1, -2, 2, ... map to 0, 1, 2, 3,
/// 4, ...
pub fn zigzag_encode_i32(n: i32) -> (r: u32)
    ensures
        r as int == zigzag_to_unsigned(n as int),
{
    if n >= 0 {
        (n as u32) * 2
    } else {
        ((-(n + 1)) as u32) * 2 + 1
    }
}

/// Invert the zigzag map: even values to non-negative integers, odd values to
/// negative ones.
pub fn zigzag_decode_i32(u: u32) -> (r: i32)
    ensures
        r as int == zigzag_to_signed(u as int),
{
    if u % 2 == 0 {
        (u / 2) as i32
    } else {
        -((u / 2) as i32) - 1
    }
}

/// A signed 32-bit integer in variable-length encoding, via zigzag.
#[derive(Clone, Copy, Debug)]
pub struct Vi32(pub(crate) Vu32);

impl View for Vi32 {
    type V = Seq<u8>;

    closed spec fn view(&self) -> Seq<u8> {
        self.0@
    }
}

/// Encode `n`: zigzag map, then unsigned encode. The buffer decodes back to
/// the zigzag counterpart of `n`, at its minimal length.
pub fn encode_vi32(n: i32) -> (r: Vi32)
    ensures
        r@.len() == 5,
        vu32_len_of(r@[0]) == vu32_len_of_val(zigzag_to_unsigned(n as int)),
        vu32_decoded(r@) == zigzag_to_unsigned(n as int),
        forall|i: int| vu32_len_of_val(zigzag_to_unsigned(n as int)) <= i < 5 ==> r@[i] == 0,
{
    Vi32(encode_vu32(zigzag_encode_i32(n)))
}

/// Decode a buffer back to its signed value: unsigned decode, then inverse
/// zigzag. Total over all 5-byte buffers.
pub fn decode_vi32(n: Vi32) -> (r: i32)
    ensures
        r as int == zigzag_to_signed(vu32_decoded(n@)),
{
    zigzag_decode_i32(decode_vu32(n.0))
}

impl Vi32 {
    /// Encode the given value; same contract as `encode_vi32`.
    pub fn new(value: i32) -> (r: Vi32)
        ensures
            r@.len() == 5,
            vu32_len_of(r@[0]) == vu32_len_of_val(zigzag_to_unsigned(value as int)),
            vu32_decoded(r@) == zigzag_to_unsigned(value as int),
            forall|i: int|
                vu32_len_of_val(zigzag_to_unsigned(value as int)) <= i < 5 ==> r@[i] == 0,
    {
        encode_vi32(value)
    }

    /// Length in bytes of the used prefix, from the leading byte alone.
    pub fn len(&self) -> (r: u8)
        ensures
            r as int == vu32_len_of(self@[0]),
            1 <= r <= 5,
    {
        self.0.len()
    }

    /// The stored value.
    pub fn get(&self) -> (r: i32)
        ensures
            r as int == zigzag_to_signed(vu32_decoded(self@)),
    {
        decode_vi32(*self)
    }

    /// The raw byte buffer, padding included.
    pub fn bytes(&self) -> (r: [u8; 5])
        ensures
            r@ == self@,
    {
        self.0.bytes()
    }

    /// The used prefix of the buffer: the bytes a stream should carry.
    pub fn as_slice(&self) -> (r: &[u8])
        ensures
            r@ == self@.subrange(0, vu32_len_of(self@[0])),
    {
        self.0.as_slice()
    }
}

} // verus!

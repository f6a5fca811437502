//! Variable-length quantity (VLQ) encoding of integers, tuned for decode
//! speed: the total number of encoded bytes is always derivable from the
//! first byte (or, for the 128-bit class, from the first two bytes).
//!
//! Supported classes:
//! - `Vu32` / `Vi32`: unsigned/signed 32-bit (at most 5 bytes)
//! - `Vu64` / `Vi64`: unsigned/signed 64-bit (at most 9 bytes)
//! - `Vu128` / `Vi128`: unsigned/signed 128-bit (at most 18 bytes)
//!
//! Signed classes use zigzag mapping so that values of small magnitude of
//! either sign get short encodings.

mod digits;
mod tiers;
mod vi128;
mod vi32;
mod vi64;
mod vu128;
mod vu32;
mod vu64;
mod zigzag;

pub use digits::be_val;
pub use digits::pow256;
pub use tiers::{offset128, offset64};
pub use vi128::{decode_vi128, encode_vi128, zigzag_decode_i128, zigzag_encode_i128, Vi128};
pub use vi32::{decode_vi32, encode_vi32, zigzag_decode_i32, zigzag_encode_i32, Vi32};
pub use vi64::{decode_vi64, encode_vi64, zigzag_decode_i64, zigzag_encode_i64, Vi64};
pub use vu128::{
    decode_len_vu128, decode_vu128, encode_len_vu128, encode_vu128, lemma_vu128_len_minimal,
    lemma_vu128_len_monotone, vu128_decoded, vu128_len_of, vu128_len_of_val, Vu128,
};
pub use vu32::{
    decode_len_vu32, decode_vu32, encode_len_vu32, encode_vu32, lemma_vu32_len_minimal,
    lemma_vu32_len_monotone, vu32_decoded, vu32_len_of, vu32_len_of_val, Vu32,
};
pub use vu64::{
    decode_len_vu64, decode_vu64, encode_len_vu64, encode_vu64, lemma_vu64_len_minimal,
    lemma_vu64_len_monotone, vu64_decoded, vu64_len_of, vu64_len_of_val, Vu64,
};
pub use zigzag::{lemma_zigzag_bijective, lemma_zigzag_round_trip, zigzag_to_signed, zigzag_to_unsigned};

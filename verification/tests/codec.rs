use fastvlq::{
    decode_len_vu64, decode_vi128, decode_vi32, decode_vi64, decode_vu128, decode_vu32,
    decode_vu64, encode_vi128, encode_vi32, encode_vi64, encode_vu128, encode_vu32, encode_vu64,
    zigzag_decode_i128, zigzag_decode_i32, zigzag_decode_i64, zigzag_encode_i128,
    zigzag_encode_i32, zigzag_encode_i64,
};

#[test]
fn check_decode() {
    assert_eq!(decode_len_vu64(0b1111_1111), 1, "max for 1");
    assert_eq!(decode_len_vu64(0b1000_0000), 1, "min for 1");
    assert_eq!(decode_len_vu64(0b0111_1111), 2, "max for 2");
    assert_eq!(decode_len_vu64(0b0100_0000), 2, "min for 2");
    assert_eq!(decode_len_vu64(0b0011_1111), 3, "max for 3");
    assert_eq!(decode_len_vu64(0b0010_0000), 3, "min for 3");
    assert_eq!(decode_len_vu64(0b0001_1111), 4, "max for 4");
    assert_eq!(decode_len_vu64(0b0001_0000), 4, "min for 4");
    assert_eq!(decode_len_vu64(0b0000_1111), 5, "max for 5");
    assert_eq!(decode_len_vu64(0b0000_1000), 5, "min for 5");
    assert_eq!(decode_len_vu64(0b0000_0111), 6, "max for 6");
    assert_eq!(decode_len_vu64(0b0000_0100), 6, "min for 6");
    assert_eq!(decode_len_vu64(0b0000_0011), 7, "max for 7");
    assert_eq!(decode_len_vu64(0b0000_0010), 7, "min for 7");
    assert_eq!(decode_len_vu64(0b0000_0001), 8, "min/max for 8");
    assert_eq!(decode_len_vu64(0b0000_0000), 9, "min/max for 9");
}

#[test]
fn round_trip() {
    assert_eq!(decode_vu64(encode_vu64(u64::MIN)), u64::MIN);
    // 1-byte: 0x00 to 0x7F
    assert_eq!(encode_vu64(0x7F).len(), 1);
    assert_eq!(decode_vu64(encode_vu64(0x7F)), 0x7F, "max for 1");
    // 2-byte: 0x80 to 0x407F
    assert_eq!(encode_vu64(0x80).len(), 2);
    assert_eq!(decode_vu64(encode_vu64(0x80)), 0x80, "min for 2");
    assert_eq!(encode_vu64(0x407F).len(), 2);
    assert_eq!(decode_vu64(encode_vu64(0x407F)), 0x407F, "max for 2");
    // 3-byte: 0x4080 to 0x20_407F
    assert_eq!(encode_vu64(0x4080).len(), 3);
    assert_eq!(decode_vu64(encode_vu64(0x4080)), 0x4080, "min for 3");
    assert_eq!(encode_vu64(0x20_407F).len(), 3);
    assert_eq!(decode_vu64(encode_vu64(0x20_407F)), 0x20_407F, "max for 3");
    // 4-byte: 0x20_4080 to 0x1020_407F
    assert_eq!(encode_vu64(0x20_4080).len(), 4);
    assert_eq!(decode_vu64(encode_vu64(0x20_4080)), 0x20_4080, "min for 4");
    assert_eq!(encode_vu64(0x1020_407F).len(), 4);
    assert_eq!(decode_vu64(encode_vu64(0x1020_407F)), 0x1020_407F, "max for 4");
    // 5-byte: 0x1020_4080 to 0x8_1020_407F
    assert_eq!(encode_vu64(0x1020_4080).len(), 5);
    assert_eq!(decode_vu64(encode_vu64(0x1020_4080)), 0x1020_4080, "min for 5");
    assert_eq!(encode_vu64(0x8_1020_407F).len(), 5);
    assert_eq!(decode_vu64(encode_vu64(0x8_1020_407F)), 0x8_1020_407F, "max for 5");
    // 6-byte: 0x8_1020_4080 to 0x408_1020_407F
    assert_eq!(encode_vu64(0x8_1020_4080).len(), 6);
    assert_eq!(decode_vu64(encode_vu64(0x8_1020_4080)), 0x8_1020_4080, "min for 6");
    assert_eq!(encode_vu64(0x408_1020_407F).len(), 6);
    assert_eq!(
        decode_vu64(encode_vu64(0x408_1020_407F)),
        0x408_1020_407F,
        "max for 6"
    );
    // 7-byte: 0x408_1020_4080 to 0x2_0408_1020_407F
    assert_eq!(encode_vu64(0x408_1020_4080).len(), 7);
    assert_eq!(
        decode_vu64(encode_vu64(0x408_1020_4080)),
        0x408_1020_4080,
        "min for 7"
    );
    assert_eq!(encode_vu64(0x2_0408_1020_407F).len(), 7);
    assert_eq!(
        decode_vu64(encode_vu64(0x2_0408_1020_407F)),
        0x2_0408_1020_407F,
        "max for 7"
    );
    // 8-byte: 0x2_0408_1020_4080 to 0x102_0408_1020_407F
    assert_eq!(encode_vu64(0x2_0408_1020_4080).len(), 8);
    assert_eq!(
        decode_vu64(encode_vu64(0x2_0408_1020_4080)),
        0x2_0408_1020_4080,
        "min for 8"
    );
    assert_eq!(encode_vu64(0x102_0408_1020_407F).len(), 8);
    assert_eq!(
        decode_vu64(encode_vu64(0x102_0408_1020_407F)),
        0x102_0408_1020_407F,
        "max for 8"
    );
    // 9-byte: 0x102_0408_1020_4080 to u64::MAX
    assert_eq!(encode_vu64(0x102_0408_1020_4080).len(), 9);
    assert_eq!(
        decode_vu64(encode_vu64(0x102_0408_1020_4080)),
        0x102_0408_1020_4080,
        "min for 9"
    );
    assert_eq!(encode_vu64(u64::MAX).len(), 9);
    assert_eq!(decode_vu64(encode_vu64(u64::MAX)), u64::MAX);
    assert_eq!(decode_vu64(encode_vu64(i64::MIN as u64)) as i64, i64::MIN);

    assert_eq!(1, decode_vu64(encode_vu64(0x1)), "1");
    assert_eq!(0, decode_vu64(encode_vu64(0x0)), "0");
    assert_eq!(0x011, decode_vu64(encode_vu64(0x011)), "2");
    assert_eq!(0xFF221122, decode_vu64(encode_vu64(0xFF221122)), "3");
    assert_eq!(
        0x11FF_FFFF_FFFF_FFFF,
        decode_vu64(encode_vu64(0x11FF_FFFF_FFFF_FFFF)),
        "4"
    );
    assert_eq!(
        0x1011_1111_1111_1111,
        decode_vu64(encode_vu64(0x1011_1111_1111_1111)),
        "5"
    );
    assert_eq!(u64::MAX, decode_vu64(encode_vu64(u64::MAX)), "max");
}

#[test]
fn zigzag_i32() {
    assert_eq!(zigzag_encode_i32(0), 0);
    assert_eq!(zigzag_encode_i32(-1), 1);
    assert_eq!(zigzag_encode_i32(1), 2);
    assert_eq!(zigzag_encode_i32(-2), 3);
    assert_eq!(zigzag_encode_i32(2), 4);
    assert_eq!(zigzag_decode_i32(zigzag_encode_i32(i32::MIN)), i32::MIN);
    assert_eq!(zigzag_decode_i32(zigzag_encode_i32(i32::MAX)), i32::MAX);
}

#[test]
fn zigzag_i64() {
    assert_eq!(zigzag_encode_i64(0), 0);
    assert_eq!(zigzag_encode_i64(-1), 1);
    assert_eq!(zigzag_encode_i64(1), 2);
    assert_eq!(zigzag_decode_i64(zigzag_encode_i64(i64::MIN)), i64::MIN);
    assert_eq!(zigzag_decode_i64(zigzag_encode_i64(i64::MAX)), i64::MAX);
}

#[test]
fn zigzag_i128() {
    assert_eq!(zigzag_encode_i128(0), 0);
    assert_eq!(zigzag_encode_i128(-1), 1);
    assert_eq!(zigzag_encode_i128(1), 2);
    assert_eq!(zigzag_decode_i128(zigzag_encode_i128(i128::MIN)), i128::MIN);
    assert_eq!(zigzag_decode_i128(zigzag_encode_i128(i128::MAX)), i128::MAX);
}

#[test]
fn vu32_round_trip() {
    assert_eq!(decode_vu32(encode_vu32(0)), 0);
    assert_eq!(decode_vu32(encode_vu32(127)), 127);
    assert_eq!(decode_vu32(encode_vu32(128)), 128);
    assert_eq!(decode_vu32(encode_vu32(u32::MAX)), u32::MAX);

    // Check lengths
    assert_eq!(encode_vu32(0).len(), 1);
    assert_eq!(encode_vu32(127).len(), 1);
    assert_eq!(encode_vu32(128).len(), 2);
    assert_eq!(encode_vu32(u32::MAX).len(), 5);
}

#[test]
fn vi32_round_trip() {
    assert_eq!(decode_vi32(encode_vi32(0)), 0);
    assert_eq!(decode_vi32(encode_vi32(1)), 1);
    assert_eq!(decode_vi32(encode_vi32(-1)), -1);
    assert_eq!(decode_vi32(encode_vi32(i32::MIN)), i32::MIN);
    assert_eq!(decode_vi32(encode_vi32(i32::MAX)), i32::MAX);

    // Small values should be compact
    assert_eq!(encode_vi32(0).len(), 1);
    assert_eq!(encode_vi32(1).len(), 1);
    assert_eq!(encode_vi32(-1).len(), 1);
}

#[test]
fn vi64_round_trip() {
    assert_eq!(decode_vi64(encode_vi64(0)), 0);
    assert_eq!(decode_vi64(encode_vi64(1)), 1);
    assert_eq!(decode_vi64(encode_vi64(-1)), -1);
    assert_eq!(decode_vi64(encode_vi64(i64::MIN)), i64::MIN);
    assert_eq!(decode_vi64(encode_vi64(i64::MAX)), i64::MAX);

    // Small values should be compact
    assert_eq!(encode_vi64(0).len(), 1);
    assert_eq!(encode_vi64(1).len(), 1);
    assert_eq!(encode_vi64(-1).len(), 1);
}

#[test]
fn vu128_round_trip_small() {
    // Small values (same as u64 range)
    assert_eq!(decode_vu128(encode_vu128(0)), 0);
    assert_eq!(decode_vu128(encode_vu128(127)), 127);
    assert_eq!(decode_vu128(encode_vu128(128)), 128);
    assert_eq!(
        decode_vu128(encode_vu128(u64::MAX as u128)),
        u64::MAX as u128
    );
}

#[test]
fn vu128_round_trip_large() {
    // Large values (beyond u64 range)
    let val = u64::MAX as u128 + 1;
    assert_eq!(decode_vu128(encode_vu128(val)), val);

    assert_eq!(decode_vu128(encode_vu128(u128::MAX)), u128::MAX);
}

#[test]
fn vi128_round_trip() {
    assert_eq!(decode_vi128(encode_vi128(0)), 0);
    assert_eq!(decode_vi128(encode_vi128(1)), 1);
    assert_eq!(decode_vi128(encode_vi128(-1)), -1);
    assert_eq!(decode_vi128(encode_vi128(i128::MIN)), i128::MIN);
    assert_eq!(decode_vi128(encode_vi128(i128::MAX)), i128::MAX);
}

use fastvlq::{
    decode_len_vu128, decode_len_vu32, decode_vu128, decode_vu32, decode_vu64, encode_len_vu128,
    encode_vu128, encode_vu32, encode_vu64, Vi128, Vi32, Vi64, Vu128, Vu32, Vu64,
};

const OFF9: u128 = 0x0102_0408_1020_4080;
const WIN_LO: u128 = 0x8102_0408_1020_4080;
const WIN_HI: u128 = 0x1_0102_0408_1020_4080;
const OFF11: u128 = 0x40_0102_0408_1020_4080;
const OFF17: u128 = 0x01_0204_0810_2040_0102_0408_1020_4080;

#[test]
fn vu128_tier_boundaries() {
    // The 9-byte tier is reserved for the window where the rebased remainder
    // needs the top bit of the 8-byte body; below it the extended tiers take
    // over, rebased at offset(9).
    assert_eq!(encode_len_vu128(OFF9 - 1), 8);
    assert_eq!(encode_len_vu128(OFF9), 10);
    assert_eq!(encode_len_vu128(WIN_LO - 1), 10);
    assert_eq!(encode_len_vu128(WIN_LO), 9);
    assert_eq!(encode_len_vu128(WIN_HI - 1), 9);
    assert_eq!(encode_len_vu128(WIN_HI), 10);
    assert_eq!(encode_len_vu128(OFF11 - 1), 10);
    assert_eq!(encode_len_vu128(OFF11), 11);
    assert_eq!(encode_len_vu128(OFF17 - 1), 16);
    assert_eq!(encode_len_vu128(OFF17), 18);
    assert_eq!(encode_len_vu128(u64::MAX as u128), 9);
    assert_eq!(encode_len_vu128(u64::MAX as u128 + 1), 9);

    for v in [
        OFF9 - 1,
        OFF9,
        WIN_LO - 1,
        WIN_LO,
        WIN_HI - 1,
        WIN_HI,
        OFF11 - 1,
        OFF11,
        OFF17 - 1,
        OFF17,
        u128::MAX,
    ] {
        assert_eq!(decode_vu128(encode_vu128(v)), v);
    }
}

#[test]
fn vu128_header_matches_length() {
    for v in [0, 0x80, OFF9, WIN_LO, WIN_HI, OFF11, OFF17, u128::MAX] {
        let e = encode_vu128(v);
        let b = e.bytes();
        assert_eq!(decode_len_vu128(b[0], b[1]), e.len());
        assert_eq!(e.as_slice().len(), e.len() as usize);
    }
}

#[test]
fn non_canonical_decodes() {
    // The terminal tiers accept non-minimal forms: a 9-byte unsigned 64-bit
    // buffer whose rebased sum wraps, a 5-byte 32-bit one likewise, and the
    // raw 18-byte 128-bit tier with any small value in its body.
    let one_in_nine = Vu64::from_bytes([0x00, 0xFE, 0xFD, 0xFB, 0xF7, 0xEF, 0xDF, 0xBF, 0x81]);
    assert_eq!(decode_vu64(one_in_nine), 1);

    let one_in_five = Vu32::from_bytes([0x08, 0xEF, 0xDF, 0xBF, 0x81]);
    assert_eq!(decode_vu32(one_in_five), 1);

    let mut raw = [0u8; 18];
    raw[17] = 1;
    let one_in_eighteen = Vu128::from_bytes(raw);
    assert_eq!(decode_vu128(one_in_eighteen), 1);

    // A 2-byte buffer with body 1 is not a second spelling of 1: rebasing
    // means the 2-byte tier starts at 0x80.
    let two_byte = Vu64::from_bytes([0x40, 0x01, 0, 0, 0, 0, 0, 0, 0]);
    assert_eq!(decode_vu64(two_byte), 0x81);
}

#[test]
fn exact_wire_bytes() {
    assert_eq!(encode_vu64(1).as_slice(), &[0x81]);
    assert_eq!(encode_vu64(0x7F).as_slice(), &[0xFF]);
    assert_eq!(encode_vu64(0x80).as_slice(), &[0x40, 0x00]);
    assert_eq!(encode_vu64(0x81).as_slice(), &[0x40, 0x01]);
    assert_eq!(encode_vu32(1).as_slice(), &[0x81]);
    assert_eq!(encode_vu128(0x80).as_slice(), &[0x40, 0x00]);
    // First value of the 9-byte 128-bit window: body top bit set.
    assert_eq!(
        encode_vu128(WIN_LO).as_slice(),
        &[0x00, 0x80, 0, 0, 0, 0, 0, 0, 0]
    );
    // First value of the extended 10-byte tier: zero remainder.
    assert_eq!(
        encode_vu128(OFF9).as_slice(),
        &[0x00, 0x40, 0, 0, 0, 0, 0, 0, 0, 0]
    );
    // Raw terminal tier: two zero header bytes, then the plain value.
    let top = encode_vu128(u128::MAX);
    let mut expect = [0xFFu8; 18];
    expect[0] = 0;
    expect[1] = 0;
    assert_eq!(top.bytes(), expect);
}

#[test]
fn decode_len_vu32_caps_at_class_max() {
    assert_eq!(decode_len_vu32(0x00), 5);
    assert_eq!(decode_len_vu32(0x04), 5);
    assert_eq!(decode_len_vu32(0x08), 5);
    assert_eq!(decode_len_vu32(0x10), 4);
}

#[test]
fn struct_round_trips() {
    let a = Vu32::new(300);
    assert_eq!(a.get(), 300);
    assert_eq!(Vu32::from_bytes(a.bytes()).get(), 300);

    let b = Vu64::new(0x1020_4080);
    assert_eq!(b.get(), 0x1020_4080);
    assert_eq!(Vu64::from_bytes(b.bytes()).get(), 0x1020_4080);
    assert_eq!(b.as_slice().len(), b.len() as usize);

    let c = Vu128::new(WIN_HI);
    assert_eq!(c.get(), WIN_HI);
    assert_eq!(Vu128::from_bytes(c.bytes()).get(), WIN_HI);

    let d = Vi32::new(-7);
    assert_eq!(d.get(), -7);
    assert_eq!(d.len(), 1);
    assert_eq!(d.bytes()[0], d.as_slice()[0]);

    let e = Vi64::new(i64::MAX);
    assert_eq!(e.get(), i64::MAX);
    assert_eq!(e.len(), 9);

    let f = Vi128::new(i128::MIN);
    assert_eq!(f.get(), i128::MIN);
    assert_eq!(f.len(), 18);
}

#[test]
fn length_monotone_on_samples() {
    let mut prev = 1u8;
    for v in [
        0u64,
        0x7F,
        0x80,
        0x407F,
        0x4080,
        0x20_407F,
        0x20_4080,
        0x1020_4080,
        0x8_1020_4080,
        0x408_1020_4080,
        0x2_0408_1020_4080,
        0x102_0408_1020_4080,
        u64::MAX,
    ] {
        let l = encode_vu64(v).len();
        assert!(prev <= l);
        prev = l;
    }
}

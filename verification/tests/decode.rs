use hips_pipeline::fits::{Decimal, DecodeError, Fits, TypedData};

fn card(text: &str) -> Vec<u8> {
    let mut c = text.as_bytes().to_vec();
    assert!(c.len() <= 80);
    while c.len() < 80 {
        c.push(b' ');
    }
    c
}

fn header(cards: &[&str]) -> Vec<u8> {
    let mut h = Vec::new();
    for c in cards {
        h.extend_from_slice(&card(c));
    }
    h.extend_from_slice(&card("END"));
    while h.len() % 2880 != 0 {
        h.push(b' ');
    }
    h
}

#[test]
fn decode_defaults_and_typed_view() {
    let mut raw = header(&["SIMPLE  =                    T", "BITPIX  =                    8",
        "NAXIS1  =                    4", "NAXIS2  =                    4"]);
    for i in 0..16u8 {
        raw.push(i);
    }
    let f = Fits::new(&raw).unwrap();
    assert_eq!(f.width, 4);
    assert_eq!(f.height, 4);
    assert_eq!(f.bscale, Decimal { neg: false, mant: 1, exp: 0 });
    assert_eq!(f.bzero, Decimal { neg: false, mant: 0, exp: 0 });
    assert!(f.blank.is_none());
    match f.data {
        TypedData::U8(v) => assert_eq!(v, (0..16).collect::<Vec<u8>>()),
        _ => panic!("expected 8-bit samples"),
    }
}

#[test]
fn decode_short_payload_is_malformed() {
    let mut raw = header(&["BITPIX  =                   16",
        "NAXIS1  =                    4", "NAXIS2  =                    4"]);
    // 16-bit samples need 32 bytes; give 10.
    for i in 0..10u8 {
        raw.push(i);
    }
    assert!(matches!(Fits::new(&raw), Err(DecodeError::Malformed)));
}

#[test]
fn decode_missing_dimension() {
    let raw = header(&["BITPIX  =                    8",
        "NAXIS1  =                    4"]);
    assert!(matches!(Fits::new(&raw), Err(DecodeError::MissingDimension)));
}

#[test]
fn decode_unsupported_kind() {
    let raw = header(&["BITPIX  =                   12",
        "NAXIS1  =                    1", "NAXIS2  =                    1"]);
    assert!(matches!(Fits::new(&raw), Err(DecodeError::UnsupportedKind)));
}

#[test]
fn decode_no_end_is_malformed() {
    let raw = card("NAXIS1  =                    4");
    assert!(matches!(Fits::new(&raw), Err(DecodeError::Malformed)));
}

#[test]
fn decode_scaling_keywords() {
    let mut raw = header(&["BITPIX  =                    8",
        "NAXIS1  =                    1", "NAXIS2  =                    1",
        "BSCALE  =             0.003891 / scale", "BZERO   =                -2.5E1",
        "BLANK   =                  -32"]);
    raw.push(0);
    let f = Fits::new(&raw).unwrap();
    assert_eq!(f.bscale, Decimal { neg: false, mant: 3891, exp: -6 });
    assert_eq!(f.bzero, Decimal { neg: true, mant: 25, exp: 0 });
    assert_eq!(f.blank, Some(Decimal { neg: true, mant: 32, exp: 0 }));
}

#[test]
fn decode_big_endian_samples() {
    let mut raw = header(&["BITPIX  =                   16",
        "NAXIS1  =                    2", "NAXIS2  =                    1"]);
    raw.extend_from_slice(&[0x01, 0x02, 0xFF, 0xFE]);
    let f = Fits::new(&raw).unwrap();
    match f.data {
        TypedData::I16(v) => assert_eq!(v, vec![0x0102, -2]),
        _ => panic!("expected 16-bit samples"),
    }
}

#[test]
fn decode_float_bits_pass_through() {
    let mut raw = header(&["BITPIX  =                  -32",
        "NAXIS1  =                    1", "NAXIS2  =                    1"]);
    raw.extend_from_slice(&1.5f32.to_be_bytes());
    let f = Fits::new(&raw).unwrap();
    match f.data {
        TypedData::F32Bits(v) => assert_eq!(f32::from_bits(v[0]), 1.5),
        _ => panic!("expected 32-bit float bits"),
    }
}

#[test]
fn decode_bad_value_is_malformed() {
    let raw = header(&["BITPIX  =                    8",
        "NAXIS1  =                 oops", "NAXIS2  =                    1"]);
    assert!(matches!(Fits::new(&raw), Err(DecodeError::Malformed)));
}

//! Byte-level checks of the primitive wire format: varints, zig-zag,
//! float patterns, packed booleans, strings and discriminants.

use phenix::base::{boolean, float, sint, uint, utils};
use phenix::bytes::Bytes;
use phenix::DecodingError;

fn uint_bytes(v: u64) -> Vec<u8> {
    let mut out = Vec::new();
    uint::encode(v, &mut out);
    out
}

fn sint_bytes(v: i64) -> Vec<u8> {
    let mut out = Vec::new();
    sint::encode(v, &mut out);
    out
}

fn float_bytes(v: f64) -> Vec<u8> {
    let mut out = Vec::new();
    float::encode(v.to_bits(), &mut out);
    out
}

#[test]
fn uint_scenarios() {
    assert_eq!(uint_bytes(0), vec![0x00]);
    assert_eq!(uint_bytes(247), vec![0xf7]);
    assert_eq!(uint_bytes(248), vec![0xf8, 0xf8]);
    assert_eq!(uint_bytes(65535), vec![0xf9, 0xff, 0xff]);
}

#[test]
fn sint_scenarios() {
    assert_eq!(sint_bytes(-1), vec![0x01]);
    assert_eq!(sint_bytes(1), vec![0x02]);
}

#[test]
fn uint_roundtrip() {
    for v in [0u64, 1, 100, 247, 248, 255, 256, 65535, 65536, u64::MAX, u64::MAX - 1] {
        let bytes = uint_bytes(v);
        let mut cursor = Bytes::new(&bytes);
        assert_eq!(uint::decode(&mut cursor), Ok(v));
        let mut cursor = Bytes::new(&bytes);
        let window = uint::recognize(&mut cursor).unwrap();
        assert_eq!(window.as_bytes(), bytes.as_slice());
    }
}

#[test]
fn sint_roundtrip() {
    for v in [0i64, 1, -1, 63, -64, i64::MAX, i64::MIN, 123456789, -123456789] {
        let bytes = sint_bytes(v);
        let mut cursor = Bytes::new(&bytes);
        assert_eq!(sint::decode(&mut cursor), Ok(v));
    }
}

#[test]
fn uint_eof() {
    let mut cursor = Bytes::new(&[]);
    let e = uint::decode(&mut cursor).unwrap_err();
    assert_eq!(e.pos(), 0);
    assert!(matches!(e, DecodingError::UnexpectedEof(_)));

    // the head asks for two trailing bytes but only one is there
    let bytes = [0xf9u8, 0xff];
    let mut cursor = Bytes::new(&bytes);
    let e = uint::decode(&mut cursor).unwrap_err();
    assert_eq!(e.pos(), 0);
    assert!(matches!(e, DecodingError::UnexpectedEof(_)));
}

#[test]
fn special_values() {
    assert_eq!(float_bytes(f64::NAN), vec![249, 127, 248]);
    assert_eq!(float_bytes(f64::INFINITY), vec![249, 127, 240]);
    assert_eq!(float_bytes(f64::NEG_INFINITY), vec![249, 255, 240]);

    let nan = [249u8, 127, 248];
    let mut cursor = Bytes::new(&nan);
    assert!(f64::from_bits(float::decode(&mut cursor).unwrap()).is_nan());

    let inf = [249u8, 127, 240];
    let mut cursor = Bytes::new(&inf);
    assert_eq!(f64::from_bits(float::decode(&mut cursor).unwrap()), f64::INFINITY);

    let neg = [249u8, 255, 240];
    let mut cursor = Bytes::new(&neg);
    assert_eq!(f64::from_bits(float::decode(&mut cursor).unwrap()), f64::NEG_INFINITY);
}

#[test]
fn float_roundtrip() {
    for v in [0.0f64, 1.5, -1.5, 3.25e300, -7.0e-200, f64::MAX, f64::MIN_POSITIVE] {
        let bytes = float_bytes(v);
        let mut cursor = Bytes::new(&bytes);
        assert_eq!(float::decode(&mut cursor), Ok(v.to_bits()));
    }
}

#[test]
fn bool_packing_scenario() {
    let values = [false, true, true, false, true];
    let mut out = Vec::new();
    boolean::encode_many(&values, &mut out);
    assert_eq!(out, vec![0x16]);

    let mut cursor = Bytes::new(&out);
    let mut decoded = Vec::new();
    boolean::decode_many(&mut cursor, 5, &mut decoded).unwrap();
    assert_eq!(decoded, values.to_vec());
}

#[test]
fn bool_packing_boundaries() {
    for n in [0usize, 1, 7, 8, 9, 16, 17] {
        let values: Vec<bool> = (0..n).map(|k| k % 3 == 0).collect();
        let mut out = Vec::new();
        boolean::encode_many(&values, &mut out);
        assert_eq!(out.len(), n.div_ceil(8));
        let mut cursor = Bytes::new(&out);
        let mut decoded = Vec::new();
        boolean::decode_many(&mut cursor, n, &mut decoded).unwrap();
        assert_eq!(decoded, values);
    }
}

#[test]
fn bool_padding_bits_ignored() {
    // five booleans, with the unused high bits of the byte set
    let bytes = [0xf6u8];
    let mut cursor = Bytes::new(&bytes);
    let mut decoded = Vec::new();
    boolean::decode_many(&mut cursor, 5, &mut decoded).unwrap();
    assert_eq!(decoded, vec![false, true, true, false, true]);
}

#[test]
fn bit_testing() {
    assert!(utils::test_bit_at(2, &[0b10000100]));
    assert!(!utils::test_bit_at(2, &[0b10000000]));
    assert!(utils::test_bit_at(8, &[0b10000100, 0b00000001]));
}

#[test]
fn bit_testing_with_bool_encoding() {
    let mut bytes = Vec::new();
    boolean::encode_many(&[false, true], &mut bytes);

    assert!(!utils::test_bit_at(0, &bytes));
    assert!(utils::test_bit_at(1, &bytes));
}

#[test]
fn bit_manipulation() {
    let mut bytes = vec![0u8; 2];

    utils::set_bit_at(2, &mut bytes);
    assert!(utils::test_bit_at(2, &bytes));

    utils::clear_bit_at(2, &mut bytes);
    assert!(!utils::test_bit_at(2, &bytes));
}

#[test]
fn byte_index() {
    assert_eq!(utils::byte_index_of(0), 0);
    assert_eq!(utils::byte_index_of(7), 0);
    assert_eq!(utils::byte_index_of(8), 1);
}

#[test]
fn discriminants() {
    let mut out = Vec::new();
    utils::encode_discriminant(7, &mut out);
    assert_eq!(out, vec![7]);
    let mut cursor = Bytes::new(&out);
    assert_eq!(utils::decode_discriminant(&mut cursor), Ok(7));

    let mut out = Vec::new();
    utils::encode_discriminant_relaxed(300, &mut out);
    let mut cursor = Bytes::new(&out);
    assert_eq!(utils::decode_discriminant_relaxed(&mut cursor), Ok(300));
}

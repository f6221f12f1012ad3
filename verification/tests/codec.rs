//! The typed codec protocol: encode, decode and recognize through the
//! trait implementations, including strings, vectors and flag sets.

use phenix::bytes::Bytes;
use phenix::schema::nested::{BadgeFlag, CountryFlag};
use phenix::{Decodable, DecodingError, Flags, Float, Float32, Float64, Sint, Uint, WireDecode, WireEncode};

fn encode_one<T: WireEncode>(v: &T) -> Vec<u8> {
    let mut out = Vec::new();
    v.encode(&mut out);
    out
}

#[test]
fn encode_uint() {
    assert_eq!(encode_one(&Uint(0)), vec![0x00]);
    assert_eq!(encode_one(&Uint(248)), vec![0xf8, 0xf8]);
}

#[test]
fn decode_uint() {
    let bytes = [0xf9u8, 0xff, 0xff];
    let mut cursor = Bytes::new(&bytes);
    let mut buf = Vec::new();
    assert_eq!(Uint::decode(&mut cursor, &mut buf), Ok(Uint(65535)));
}

#[test]
fn recognize_uint() {
    let bytes = [0xf8u8, 0xf8, 0x01];
    let mut cursor = Bytes::new(&bytes);
    let mut buf = Vec::new();
    let w = Uint::recognize(&mut cursor, &mut buf).unwrap();
    assert_eq!(w.as_bytes(), &[0xf8, 0xf8]);
    let mut buf = Vec::new();
    assert_eq!(w.decode(&mut buf), Ok(Uint(248)));
}

#[test]
fn encode_sint() {
    assert_eq!(encode_one(&Sint(-1)), vec![0x01]);
    assert_eq!(encode_one(&Sint(1)), vec![0x02]);
}

#[test]
fn decode_sint() {
    let bytes = [0x02u8];
    let mut cursor = Bytes::new(&bytes);
    let mut buf = Vec::new();
    assert_eq!(Sint::decode(&mut cursor, &mut buf), Ok(Sint(1)));
}

#[test]
fn fixed_ints_roundtrip() {
    let mut out = Vec::new();
    0x1234u16.encode(&mut out);
    assert_eq!(out, vec![0x34, 0x12]);
    let mut cursor = Bytes::new(&out);
    let mut buf = Vec::new();
    assert_eq!(u16::decode(&mut cursor, &mut buf), Ok(0x1234));

    let mut out = Vec::new();
    (-2i32).encode(&mut out);
    assert_eq!(out, vec![0xfe, 0xff, 0xff, 0xff]);
    let mut cursor = Bytes::new(&out);
    let mut buf = Vec::new();
    assert_eq!(i32::decode(&mut cursor, &mut buf), Ok(-2));

    let mut out = Vec::new();
    i64::MIN.encode(&mut out);
    let mut cursor = Bytes::new(&out);
    let mut buf = Vec::new();
    assert_eq!(i64::decode(&mut cursor, &mut buf), Ok(i64::MIN));
}

#[test]
fn float32_fixed_width() {
    let v = Float32::from_bits(1.5f32.to_bits());
    let out = encode_one(&v);
    assert_eq!(out, 1.5f32.to_le_bytes().to_vec());
    let mut cursor = Bytes::new(&out);
    let mut buf = Vec::new();
    let back = Float32::decode(&mut cursor, &mut buf).unwrap();
    assert_eq!(f32::from_bits(back.to_bits()), 1.5f32);
}

#[test]
fn encode_string() {
    let s = String::from("Hi");
    assert_eq!(encode_one(&s), vec![0x02, 0x48, 0x69]);

    let empty = String::new();
    assert_eq!(encode_one(&empty), vec![0x00]);
}

#[test]
fn decode_string() {
    let bytes = [0x02u8, 0x48, 0x69];
    let mut cursor = Bytes::new(&bytes);
    let mut buf = Vec::new();
    assert_eq!(String::decode(&mut cursor, &mut buf), Ok(String::from("Hi")));

    let unicode = String::from("ž! 🚀");
    let wire = encode_one(&unicode);
    let mut cursor = Bytes::new(&wire);
    let mut buf = Vec::new();
    assert_eq!(String::decode(&mut cursor, &mut buf), Ok(unicode));
}

#[test]
fn string_value_error_position() {
    // a two-byte string whose first content byte is invalid UTF-8
    let bytes = [0x02u8, 0xff, 0xff];
    let mut cursor = Bytes::new(&bytes);
    let mut buf = Vec::new();
    let e = String::decode(&mut cursor, &mut buf).unwrap_err();
    assert!(matches!(e, DecodingError::ValueError(_)));
    assert_eq!(e.pos(), 1);
}

#[test]
fn recognize_string() {
    // recognition skips the content without validating it
    let bytes = [0x02u8, 0xff, 0xff, 0x07];
    let mut cursor = Bytes::new(&bytes);
    let mut buf = Vec::new();
    let w = String::recognize(&mut cursor, &mut buf).unwrap();
    assert_eq!(w.as_bytes(), &[0x02, 0xff, 0xff]);
    assert_eq!(cursor.remaining_len(), 1);
}

#[test]
fn vector_roundtrip() {
    let v: Vec<Uint> = vec![Uint(1), Uint(248), Uint(65535)];
    let wire = encode_one(&v);
    assert_eq!(wire, vec![0x03, 0x01, 0xf8, 0xf8, 0xf9, 0xff, 0xff]);
    let mut cursor = Bytes::new(&wire);
    let mut buf = Vec::new();
    let back = <Vec<Uint>>::decode(&mut cursor, &mut buf).unwrap();
    assert_eq!(back, v);

    let empty: Vec<Uint> = Vec::new();
    assert_eq!(encode_one(&empty), vec![0x00]);
}

#[test]
fn vector_of_bools_packs() {
    let v: Vec<bool> = vec![false, true, true, false, true];
    let wire = encode_one(&v);
    assert_eq!(wire, vec![0x05, 0x16]);
    let mut cursor = Bytes::new(&wire);
    let mut buf = Vec::new();
    assert_eq!(<Vec<bool>>::decode(&mut cursor, &mut buf), Ok(v));
}

#[test]
fn vector_count_eof() {
    // the count's varint head asks for bytes that are not there
    let bytes = [0xf9u8, 0xff];
    let mut cursor = Bytes::new(&bytes);
    let mut buf = Vec::new();
    let e = <Vec<Uint>>::decode(&mut cursor, &mut buf).unwrap_err();
    assert!(matches!(e, DecodingError::UnexpectedEof(_)));
    assert_eq!(e.pos(), 0);
}

#[test]
fn string_count_eof() {
    // a string length header cut off by the end of the buffer
    let bytes = [0xf9u8, 0xff];
    let mut cursor = Bytes::new(&bytes);
    let mut buf = Vec::new();
    let e = String::decode(&mut cursor, &mut buf).unwrap_err();
    assert!(matches!(e, DecodingError::UnexpectedEof(_)));
    assert_eq!(e.pos(), 0);
}

#[test]
fn encode_flags() {
    // an exhaustive flag enum travels as a fixed bitmap with no length
    let mut set: Flags<CountryFlag> = Flags::empty();
    set.set(CountryFlag::CzechRepublic);
    set.set(CountryFlag::France);
    let wire = encode_one(&set);
    assert_eq!(wire, vec![0b0010_0000, 0b0000_0010, 0, 0]);
}

#[test]
fn decode_flags() {
    let bytes = [0b0010_0000u8, 0b0000_0010, 0, 0];
    let mut cursor = Bytes::new(&bytes);
    let mut buf = Vec::new();
    let set = <Flags<CountryFlag>>::decode(&mut cursor, &mut buf).unwrap();
    assert!(set.is_set(CountryFlag::CzechRepublic));
    assert!(set.is_set(CountryFlag::France));
    assert!(!set.is_set(CountryFlag::Austria));
    assert_eq!(set.collect(), vec![CountryFlag::CzechRepublic, CountryFlag::France]);
}

#[test]
fn recognize_flags() {
    let bytes = [0b0010_0000u8, 0b0000_0010, 0, 0, 0xaa];
    let mut cursor = Bytes::new(&bytes);
    let mut buf = Vec::new();
    let w = <Flags<CountryFlag>>::recognize(&mut cursor, &mut buf).unwrap();
    assert_eq!(w.as_bytes().len(), 4);
    assert_eq!(cursor.remaining_len(), 1);
}

#[test]
fn encode_flags_non_exhaustive() {
    // a non-exhaustive flag enum is prefixed by its bitmap's byte count
    let mut set: Flags<BadgeFlag> = Flags::empty();
    set.set(BadgeFlag::Gold);
    let wire = encode_one(&set);
    assert_eq!(wire, vec![0x01, 0b0000_0100]);
}

#[test]
fn decode_flags_non_exhaustive() {
    // a producer may carry flags the consumer does not know: two bytes
    let bytes = [0x02u8, 0b0000_0001, 0b1000_0000];
    let mut cursor = Bytes::new(&bytes);
    let mut buf = Vec::new();
    let set = <Flags<BadgeFlag>>::decode(&mut cursor, &mut buf).unwrap();
    assert!(set.is_set(BadgeFlag::Bronze));
    assert!(!set.is_set(BadgeFlag::Gold));
}

#[test]
fn recognize_flags_non_exhaustive() {
    let bytes = [0x02u8, 0x01, 0x80, 0x55];
    let mut cursor = Bytes::new(&bytes);
    let mut buf = Vec::new();
    let w = <Flags<BadgeFlag>>::recognize(&mut cursor, &mut buf).unwrap();
    assert_eq!(w.as_bytes(), &[0x02, 0x01, 0x80]);
}

#[test]
fn flag_sets_compare_by_flags() {
    let mut a: Flags<BadgeFlag> = Flags::empty();
    a.set(BadgeFlag::Silver);
    a.set(BadgeFlag::Gold);
    a.unset(BadgeFlag::Gold);
    let mut b: Flags<BadgeFlag> = Flags::empty();
    b.set(BadgeFlag::Silver);
    assert!(a == b);
    b.set(BadgeFlag::Bronze);
    assert!(a != b);
}


#[test]
fn recognize_sint() {
    let bytes = [0x02u8, 0x55];
    let mut cursor = Bytes::new(&bytes);
    let mut buf = Vec::new();
    let w = Sint::recognize(&mut cursor, &mut buf).unwrap();
    assert_eq!(w.as_bytes(), &[0x02]);
    let mut buf = Vec::new();
    assert_eq!(w.decode(&mut buf), Ok(Sint(1)));
}

#[test]
fn encode_float() {
    let v = Float::from_bits(f64::INFINITY.to_bits());
    assert_eq!(encode_one(&v), vec![0xf9, 0x7f, 0xf0]);
    let v = Float::from_bits(f64::NEG_INFINITY.to_bits());
    assert_eq!(encode_one(&v), vec![0xf9, 0xff, 0xf0]);
}

#[test]
fn decode_float() {
    let bytes = [0xf9u8, 0x7f, 0xf0];
    let mut cursor = Bytes::new(&bytes);
    let mut buf = Vec::new();
    let v = Float::decode(&mut cursor, &mut buf).unwrap();
    assert_eq!(f64::from_bits(v.to_bits()), f64::INFINITY);
}

#[test]
fn recognize_float() {
    let v = Float::from_bits(2.5f64.to_bits());
    let wire = encode_one(&v);
    let mut cursor = Bytes::new(&wire);
    let mut buf = Vec::new();
    let w = Float::recognize(&mut cursor, &mut buf).unwrap();
    assert_eq!(w.as_bytes(), wire.as_slice());
    let mut buf = Vec::new();
    assert_eq!(w.decode(&mut buf), Ok(v));
}

#[test]
fn encode_bool() {
    assert_eq!(encode_one(&true), vec![0x01]);
    assert_eq!(encode_one(&false), vec![0x00]);
}

#[test]
fn decode_bool() {
    let bytes = [0x01u8, 0x00];
    let mut cursor = Bytes::new(&bytes);
    let mut buf = Vec::new();
    assert_eq!(bool::decode(&mut cursor, &mut buf), Ok(true));
    assert_eq!(bool::decode(&mut cursor, &mut buf), Ok(false));
}

#[test]
fn recognize_bool() {
    let bytes = [0x01u8, 0x00];
    let mut cursor = Bytes::new(&bytes);
    let mut buf = Vec::new();
    let w = bool::recognize(&mut cursor, &mut buf).unwrap();
    assert_eq!(w.as_bytes(), &[0x01]);
}

#[test]
fn float64_fixed_width() {
    let v = Float64::from_bits(1.5f64.to_bits());
    let out = encode_one(&v);
    assert_eq!(out, 1.5f64.to_le_bytes().to_vec());
    let mut cursor = Bytes::new(&out);
    let mut buf = Vec::new();
    let back = Float64::decode(&mut cursor, &mut buf).unwrap();
    assert_eq!(f64::from_bits(back.to_bits()), 1.5f64);
}

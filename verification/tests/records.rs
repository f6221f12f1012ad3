//! The optional-field record: presence bits on the wire, and the by-parts
//! walk whose windows tile the recognized range.

use phenix::bytes::Bytes;
use phenix::schema::record::Record;
use phenix::schema::parts::RecordPart;
use phenix::{Uint, WireDecode, WireEncode};

fn sample(with1: bool, with2: bool) -> Record {
    Record {
        string: "hey".to_string(),
        optional1: if with1 { Some(Uint(7)) } else { None },
        generic: vec![true, false, true],
        optional2: if with2 { Some(Uint(65535)) } else { None },
    }
}

#[test]
fn record_wire_bytes() {
    let r = sample(true, false);
    let mut bytes: Vec<u8> = Vec::new();
    r.encode(&mut bytes);
    // presence bits 0b01, the string, the present optional, the bools
    assert_eq!(bytes, vec![0x01, 0x03, 0x68, 0x65, 0x79, 0x07, 0x03, 0x05]);
}

#[test]
fn record_roundtrip() {
    for (a, b) in [(false, false), (true, false), (false, true), (true, true)] {
        let r = sample(a, b);
        let mut bytes: Vec<u8> = Vec::new();
        r.encode(&mut bytes);
        let decoded = Record::decode(&mut Bytes::new(&bytes), &mut Vec::new()).unwrap();
        assert_eq!(decoded, r);
    }
}

#[test]
fn record_by_parts_windows_tile_the_range() {
    let r = sample(true, true);
    let mut bytes: Vec<u8> = Vec::new();
    r.encode(&mut bytes);

    // the whole-struct recognizer's range
    let mut cursor = Bytes::new(&bytes);
    let whole = Record::recognize(&mut cursor, &mut Vec::new()).unwrap();
    let whole_bytes = whole.as_bytes().to_vec();

    // the by-parts windows, concatenated after the presence bitmap
    let mut walker = Record::recognize_by_parts(Bytes::new(&bytes));
    let mut concat: Vec<u8> = vec![bytes[0]];
    let mut buf = Vec::new();
    while let Some(item) = walker.next() {
        match item.unwrap() {
            RecordPart::StringField(w) => {
                concat.extend_from_slice(w.as_bytes());
                assert_eq!(String::from("hey"), w.decode(&mut buf).unwrap());
            },
            RecordPart::Optional1(Some(w)) => {
                concat.extend_from_slice(w.as_bytes());
                assert_eq!(Uint(7), w.decode(&mut buf).unwrap());
            },
            RecordPart::Optional2(Some(w)) => {
                concat.extend_from_slice(w.as_bytes());
                assert_eq!(Uint(65535), w.decode(&mut buf).unwrap());
            },
            RecordPart::Generic(w) => {
                concat.extend_from_slice(w.as_bytes());
            },
            RecordPart::Optional1(None) | RecordPart::Optional2(None) => {},
        }
    }
    assert_eq!(concat, whole_bytes);
}

#[test]
fn record_by_parts_absent_optionals() {
    let r = sample(false, false);
    let mut bytes: Vec<u8> = Vec::new();
    r.encode(&mut bytes);

    let mut walker = Record::recognize_by_parts(Bytes::new(&bytes));
    let mut kinds = Vec::new();
    while let Some(item) = walker.next() {
        kinds.push(match item.unwrap() {
            RecordPart::StringField(_) => 's',
            RecordPart::Optional1(Some(_)) => '1',
            RecordPart::Optional1(None) => 'n',
            RecordPart::Generic(_) => 'g',
            RecordPart::Optional2(Some(_)) => '2',
            RecordPart::Optional2(None) => 'm',
        });
    }
    assert_eq!(kinds, vec!['s', 'n', 'g', 'm']);
}

#[test]
fn record_by_parts_first_error_ends_the_walk() {
    // the presence byte asks for a present first optional, but the string
    // runs past the end of the buffer
    let bytes = [0x01u8, 0x09, 0x68];
    let mut walker = Record::recognize_by_parts(Bytes::new(&bytes));
    let first = walker.next().unwrap();
    assert!(first.is_err());
    assert!(walker.next().is_none());
}

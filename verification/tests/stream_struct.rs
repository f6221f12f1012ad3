//! End-to-end checks of the generated-type protocol: a record with a
//! trailing stream of projects encoded and decoded whole, and the
//! struct/enum scenarios with their exact wire bytes.

use phenix::bytes::Bytes;
use phenix::imp::collections::Stream;
use phenix::schema::nested::{Country, CountryFlag, DegreeName, Pronoun};
use phenix::schema::person::{Degree, Person, Pronouns, Project};
use phenix::schema::record::{Choice, Message, Record};
use phenix::{Flags, Uint, WireDecode, WireEncode};

fn expected() -> (Person, Vec<Project>) {
    let mut citizenship: Country = Flags::empty();
    citizenship.set(CountryFlag::CzechRepublic);
    citizenship.set(CountryFlag::France);

    let person = Person {
        name: "Felix".to_string(),
        age: Uint(42),
        pronouns: Pronouns { subject: Pronoun::They, object: Pronoun::Them },
        degree: Degree::Highest { name: DegreeName::Master },
        citizenship,
        working_hours: vec![
            false, false, false, false, false, false, false, false, false, true, true, true, true,
            true, true, true, true, false, false, false, false, false, false, false,
        ],
        projects: Stream::with_offset(19),
    };

    let projects = vec![
        Project {
            name: "Rust".to_string(),
            url: "https://github.com/rust-lang/rust".to_string(),
        },
        Project {
            name: "Linux".to_string(),
            url: "https://github.com/torvalds/linux".to_string(),
        },
        Project {
            name: "Phenix".to_string(),
            url: "https://github.com/aardwolf-sfl/phenix".to_string(),
        },
    ];

    (person, projects)
}

#[test]
fn rust_to_rust() {
    let (person, projects) = expected();

    let mut bytes: Vec<u8> = Vec::new();
    person.encode(&mut bytes);

    for project in projects.iter() {
        Stream::push_encode(project, &mut bytes);
    }

    let decoded = Person::decode(&mut Bytes::new(&bytes), &mut Vec::new()).unwrap();
    let collected = decoded.projects.collect(&bytes).unwrap();

    assert_eq!(decoded, person);
    assert_eq!(collected, projects);
}

#[test]
fn stream_iteration_yields_pushes() {
    let (person, projects) = expected();

    let mut bytes: Vec<u8> = Vec::new();
    person.encode(&mut bytes);
    assert_eq!(bytes.len(), 19);

    for project in projects.iter() {
        Stream::push_encode(project, &mut bytes);
    }

    let decoded = Person::decode(&mut Bytes::new(&bytes), &mut Vec::new()).unwrap();
    let mut iter = decoded.projects.iter(&bytes);
    let mut buf = Vec::new();
    let mut seen = Vec::new();
    while let Some(item) = iter.next() {
        let window = item.unwrap();
        seen.push(window.decode(&mut buf).unwrap());
    }
    assert_eq!(seen, projects);
}

#[test]
fn struct_scenario() {
    let message = Message {
        from: "a".to_string(),
        to: "b".to_string(),
        text: "hey".to_string(),
    };
    let mut bytes: Vec<u8> = Vec::new();
    message.encode(&mut bytes);
    assert_eq!(bytes, vec![0x01, 0x61, 0x01, 0x62, 0x03, 0x68, 0x65, 0x79]);

    let decoded = Message::decode(&mut Bytes::new(&bytes), &mut Vec::new()).unwrap();
    assert_eq!(decoded, message);
}

#[test]
fn enum_scenario() {
    let value = Choice::Bar { number: Uint(5), boolean: true };
    let mut bytes: Vec<u8> = Vec::new();
    value.encode(&mut bytes);
    assert_eq!(bytes, vec![0x01, 0x05, 0x01]);

    let decoded = Choice::decode(&mut Bytes::new(&bytes), &mut Vec::new()).unwrap();
    assert_eq!(decoded, value);
}

#[test]
fn enum_discriminant_out_of_range() {
    let bytes = [0x02u8, 0x05, 0x01];
    let e = Choice::decode(&mut Bytes::new(&bytes), &mut Vec::new()).unwrap_err();
    assert!(matches!(e, phenix::DecodingError::InvalidPrefix(_)));
    assert_eq!(e.pos(), 0);
}

#[test]
fn struct_recognize_matches_decode() {
    let (person, projects) = expected();
    let mut bytes: Vec<u8> = Vec::new();
    person.encode(&mut bytes);
    for project in projects.iter() {
        Stream::push_encode(project, &mut bytes);
    }

    let mut cursor = Bytes::new(&bytes);
    let window = Person::recognize(&mut cursor, &mut Vec::new()).unwrap();
    assert_eq!(window.as_bytes().len(), bytes.len());

    let mut cursor = Bytes::new(&bytes);
    Person::decode(&mut cursor, &mut Vec::new()).unwrap();
    assert_eq!(cursor.remaining_len(), 0);
}


#[test]
fn encode_struct() {
    let r = Record {
        string: "hey".to_string(),
        optional1: Some(Uint(7)),
        generic: vec![true, false, true],
        optional2: None,
    };
    let mut bytes: Vec<u8> = Vec::new();
    r.encode(&mut bytes);
    assert_eq!(bytes, vec![0x01, 0x03, 0x68, 0x65, 0x79, 0x07, 0x03, 0x05]);
}

#[test]
fn decode_struct() {
    let bytes = [0x01u8, 0x03, 0x68, 0x65, 0x79, 0x07, 0x03, 0x05];
    let decoded = Record::decode(&mut Bytes::new(&bytes), &mut Vec::new()).unwrap();
    assert_eq!(decoded.string, "hey");
    assert_eq!(decoded.optional1, Some(Uint(7)));
    assert_eq!(decoded.generic, vec![true, false, true]);
    assert_eq!(decoded.optional2, None);
}

#[test]
fn recognize_struct() {
    let bytes = [0x01u8, 0x03, 0x68, 0x65, 0x79, 0x07, 0x03, 0x05, 0xaa];
    let mut cursor = Bytes::new(&bytes);
    let w = Record::recognize(&mut cursor, &mut Vec::new()).unwrap();
    assert_eq!(w.as_bytes().len(), 8);
    assert_eq!(cursor.remaining_len(), 1);
}

#[test]
fn encode_enum() {
    let mut bytes: Vec<u8> = Vec::new();
    Choice::Foo.encode(&mut bytes);
    assert_eq!(bytes, vec![0x00]);
}

#[test]
fn decode_enum() {
    let bytes = [0x00u8];
    assert_eq!(Choice::decode(&mut Bytes::new(&bytes), &mut Vec::new()), Ok(Choice::Foo));
}

#[test]
fn recognize_enum() {
    let bytes = [0x01u8, 0x05, 0x01, 0xee];
    let mut cursor = Bytes::new(&bytes);
    let w = Choice::recognize(&mut cursor, &mut Vec::new()).unwrap();
    assert_eq!(w.as_bytes(), &[0x01, 0x05, 0x01]);
}

//! The example schema's wire types: a person record whose trailing field
//! is a stream of projects, with the helper structs and enums it embeds.

use vstd::prelude::*;

use crate::base::utils::{self, disc_dec};
use crate::bytes::{ByteSlice, Bytes};
use crate::errors::{eof, invalid_prefix, DecodingError};
use crate::imp::collections::Stream;
use crate::schema::nested::{Country, DegreeName, Pronoun};
use crate::traits::{lemma_subrange_cat, lemma_subwindow, WireDecode, WireEncode};
use crate::values::Uint;

verus! {

/// A person's pronoun pair.
#[derive(Debug, Clone, Copy, PartialEq, Eq, Structural)]
pub struct Pronouns {
    pub subject: Pronoun,
    pub object: Pronoun,
}

/// The wire bytes of a pronoun pair: its fields in declaration order.
pub open spec fn pronouns_wire(v: Pronouns) -> Seq<u8> {
    v.subject.wire() + v.object.wire()
}

/// Decoding a pronoun pair: its fields in declaration order.
pub open spec fn pronouns_dec(s: Seq<u8>, i: int) -> Option<(Pronouns, int)> {
    match Pronoun::dec(s, i) {
        None => None,
        Some((subject, j)) => match Pronoun::dec(s, j) {
            None => None,
            Some((object, k)) => Some((Pronouns { subject, object }, k)),
        },
    }
}

/// Which error a failed pronoun-pair decode reports: the failing field's.
pub open spec fn pronouns_dec_err(s: Seq<u8>, i: int) -> DecodingError {
    match Pronoun::dec(s, i) {
        None => Pronoun::dec_err(s, i),
        Some((_, j)) => Pronoun::dec_err(s, j),
    }
}

impl DeepView for Pronouns {
    type V = Pronouns;

    open spec fn deep_view(&self) -> Pronouns {
        *self
    }
}

impl WireEncode for Pronouns {
    open spec fn wire(&self) -> Seq<u8> {
        pronouns_wire(*self)
    }

    open spec fn wf_value(&self) -> bool {
        true
    }

    fn encode(&self, out: &mut Vec<u8>) {
        self.subject.encode(out);
        self.object.encode(out);
        assert(final(out)@ =~= old(out)@ + self.wire());
    }
}

impl WireDecode for Pronouns {
    open spec fn dec(s: Seq<u8>, i: int) -> Option<(Pronouns, int)> {
        pronouns_dec(s, i)
    }

    open spec fn dec_err(s: Seq<u8>, i: int) -> DecodingError {
        pronouns_dec_err(s, i)
    }

    open spec fn rec(s: Seq<u8>, i: int) -> Option<int> {
        match pronouns_dec(s, i) {
            Some((_, j)) => Some(j),
            None => None,
        }
    }

    open spec fn rec_err(s: Seq<u8>, i: int) -> DecodingError {
        pronouns_dec_err(s, i)
    }

    open spec fn rt() -> bool {
        true
    }

    open spec fn rec_exact() -> bool {
        true
    }

    open spec fn dec_progress() -> bool {
        true
    }

    fn decode(bytes: &mut Bytes<'_>, buf: &mut Vec<u8>) -> Result<Pronouns, DecodingError> {
        let subject = match Pronoun::decode(bytes, buf) {
            Ok(v) => v,
            Err(e) => {
                return Err(e);
            },
        };
        let object = match Pronoun::decode(bytes, buf) {
            Ok(v) => v,
            Err(e) => {
                return Err(e);
            },
        };
        Ok(Pronouns { subject, object })
    }

    fn recognize<'a>(bytes: &mut Bytes<'a>, buf: &mut Vec<u8>) -> Result<
        ByteSlice<'a, Pronouns>,
        DecodingError,
    > {
        let mark = bytes.mark();
        match Self::decode(bytes, buf) {
            Ok(_) => Ok(bytes.take_slice_from(mark)),
            Err(e) => Err(e),
        }
    }

    proof fn lemma_dec_in_range(s: Seq<u8>, i: int) {
        let (_, j) = Pronoun::dec(s, i)->Some_0;
        Pronoun::lemma_dec_in_range(s, i);
        Pronoun::lemma_dec_in_range(s, j);
    }

    proof fn lemma_dec_progress(s: Seq<u8>, i: int) {
        let (_, j) = Pronoun::dec(s, i)->Some_0;
        Pronoun::lemma_dec_progress(s, i);
        Pronoun::lemma_dec_in_range(s, j);
    }

    proof fn lemma_wire_dec(&self, s: Seq<u8>, i: int) {
        lemma_subrange_cat(s, i, self.subject.wire(), self.object.wire());
        self.subject.lemma_wire_dec(s, i);
        self.object.lemma_wire_dec(s, i + self.subject.wire().len() as int);
    }

    proof fn lemma_rec_covers(s: Seq<u8>, i: int) {
    }

    proof fn lemma_dec_frame(s: Seq<u8>, i: int, t: Seq<u8>, k: int) {
        let (_, j) = Pronoun::dec(s, i)->Some_0;
        let e = pronouns_dec(s, i)->Some_0.1;
        Pronoun::lemma_dec_in_range(s, i);
        Pronoun::lemma_dec_in_range(s, j);
        lemma_subwindow(s, i, e, t, k, i, j);
        Pronoun::lemma_dec_frame(s, i, t, k);
        lemma_subwindow(s, i, e, t, k, j, e);
        Pronoun::lemma_dec_frame(s, j, t, k + (j - i));
    }
}

/// A person's highest completed education.
#[derive(Debug, Clone, Copy, PartialEq, Eq, Structural)]
pub enum Degree {
    Unknown,
    Highest { name: DegreeName },
}

/// The wire bytes of a degree: its discriminant, then the variant's
/// fields in order.
pub open spec fn degree_wire(v: Degree) -> Seq<u8> {
    match v {
        Degree::Unknown => seq![0u8],
        Degree::Highest { name } => seq![1u8] + name.wire(),
    }
}

/// Decoding a degree: the discriminant picks the variant, whose fields
/// follow. A discriminant at or above the variant count is an invalid
/// prefix at the discriminant's byte.
pub open spec fn degree_dec(s: Seq<u8>, i: int) -> Option<(Degree, int)> {
    match disc_dec(s, i) {
        None => None,
        Some((d, j)) => {
            if d == 0 {
                Some((Degree::Unknown, j))
            } else if d == 1 {
                match DegreeName::dec(s, j) {
                    None => None,
                    Some((name, k)) => Some((Degree::Highest { name }, k)),
                }
            } else {
                None
            }
        },
    }
}

/// Which error a failed degree decode reports.
pub open spec fn degree_dec_err(s: Seq<u8>, i: int) -> DecodingError {
    match disc_dec(s, i) {
        None => eof(i),
        Some((d, j)) => {
            if d == 1 {
                DegreeName::dec_err(s, j)
            } else {
                invalid_prefix(i)
            }
        },
    }
}

impl DeepView for Degree {
    type V = Degree;

    open spec fn deep_view(&self) -> Degree {
        *self
    }
}

impl WireEncode for Degree {
    open spec fn wire(&self) -> Seq<u8> {
        degree_wire(*self)
    }

    open spec fn wf_value(&self) -> bool {
        true
    }

    fn encode(&self, out: &mut Vec<u8>) {
        match self {
            Degree::Unknown => {
                utils::encode_discriminant(0, out);
            },
            Degree::Highest { name } => {
                utils::encode_discriminant(1, out);
                name.encode(out);
            },
        }
        assert(final(out)@ =~= old(out)@ + self.wire());
    }
}

impl WireDecode for Degree {
    open spec fn dec(s: Seq<u8>, i: int) -> Option<(Degree, int)> {
        degree_dec(s, i)
    }

    open spec fn dec_err(s: Seq<u8>, i: int) -> DecodingError {
        degree_dec_err(s, i)
    }

    open spec fn rec(s: Seq<u8>, i: int) -> Option<int> {
        match degree_dec(s, i) {
            Some((_, j)) => Some(j),
            None => None,
        }
    }

    open spec fn rec_err(s: Seq<u8>, i: int) -> DecodingError {
        degree_dec_err(s, i)
    }

    open spec fn rt() -> bool {
        true
    }

    open spec fn rec_exact() -> bool {
        true
    }

    open spec fn dec_progress() -> bool {
        true
    }

    fn decode(bytes: &mut Bytes<'_>, buf: &mut Vec<u8>) -> Result<Degree, DecodingError> {
        let start = bytes.mark().to_usize();
        let d = match utils::decode_discriminant(bytes) {
            Ok(d) => d,
            Err(e) => {
                return Err(e);
            },
        };
        match d {
            0 => Ok(Degree::Unknown),
            1 => {
                match DegreeName::decode(bytes, buf) {
                    Ok(name) => Ok(Degree::Highest { name }),
                    Err(e) => Err(e),
                }
            },
            _ => Err(DecodingError::invalid_prefix_at(start)),
        }
    }

    fn recognize<'a>(bytes: &mut Bytes<'a>, buf: &mut Vec<u8>) -> Result<
        ByteSlice<'a, Degree>,
        DecodingError,
    > {
        let mark = bytes.mark();
        match Self::decode(bytes, buf) {
            Ok(_) => Ok(bytes.take_slice_from(mark)),
            Err(e) => Err(e),
        }
    }

    proof fn lemma_dec_in_range(s: Seq<u8>, i: int) {
        match disc_dec(s, i) {
            Some((d, j)) => {
                if d == 1 {
                    DegreeName::lemma_dec_in_range(s, j);
                }
            },
            None => {},
        }
    }

    proof fn lemma_dec_progress(s: Seq<u8>, i: int) {
        match disc_dec(s, i) {
            Some((d, j)) => {
                if d == 1 {
                    DegreeName::lemma_dec_in_range(s, j);
                }
            },
            None => {},
        }
    }

    proof fn lemma_wire_dec(&self, s: Seq<u8>, i: int) {
        match *self {
            Degree::Unknown => {
                assert(s[i] == self.wire()[0]);
            },
            Degree::Highest { name } => {
                lemma_subrange_cat(s, i, seq![1u8], name.wire());
                assert(s[i] == s.subrange(i, i + 1)[0]);
                name.lemma_wire_dec(s, i + 1);
            },
        }
    }

    proof fn lemma_rec_covers(s: Seq<u8>, i: int) {
    }

    proof fn lemma_dec_frame(s: Seq<u8>, i: int, t: Seq<u8>, k: int) {
        let (d, j) = disc_dec(s, i)->Some_0;
        let e = degree_dec(s, i)->Some_0.1;
        assert(t[k] == t.subrange(k, k + (e - i))[0]);
        assert(s[i] == s.subrange(i, e)[0]);
        if d == 1 {
            DegreeName::lemma_dec_in_range(s, j);
            lemma_subwindow(s, i, e, t, k, j, e);
            DegreeName::lemma_dec_frame(s, j, t, k + (j - i));
        }
    }
}

/// A project a person works on.
#[derive(Debug)]
pub struct Project {
    pub name: String,
    pub url: String,
}

/// The abstract view of a project: its fields' views.
pub struct ProjectV {
    pub name: Seq<char>,
    pub url: Seq<char>,
}

/// The wire bytes of a project: its fields in declaration order.
pub open spec fn project_wire(name: Seq<char>, url: Seq<char>) -> Seq<u8> {
    crate::imp::builtin::string_wire(name) + crate::imp::builtin::string_wire(url)
}

/// Decoding a project: its fields in declaration order.
pub open spec fn project_dec(s: Seq<u8>, i: int) -> Option<(ProjectV, int)> {
    match String::dec(s, i) {
        None => None,
        Some((name, j)) => match String::dec(s, j) {
            None => None,
            Some((url, k)) => Some((ProjectV { name, url }, k)),
        },
    }
}

/// Which error a failed project decode reports: the failing field's.
pub open spec fn project_dec_err(s: Seq<u8>, i: int) -> DecodingError {
    match String::dec(s, i) {
        None => String::dec_err(s, i),
        Some((_, j)) => String::dec_err(s, j),
    }
}

/// Recognizing a project: its fields in order, strings unvalidated.
pub open spec fn project_rec(s: Seq<u8>, i: int) -> Option<int> {
    match String::rec(s, i) {
        None => None,
        Some(j) => String::rec(s, j),
    }
}

/// Which error a failed project recognition reports.
pub open spec fn project_rec_err(s: Seq<u8>, i: int) -> DecodingError {
    match String::rec(s, i) {
        None => String::rec_err(s, i),
        Some(j) => String::rec_err(s, j),
    }
}

impl DeepView for Project {
    type V = ProjectV;

    open spec fn deep_view(&self) -> ProjectV {
        ProjectV { name: self.name@, url: self.url@ }
    }
}

impl WireEncode for Project {
    open spec fn wire(&self) -> Seq<u8> {
        project_wire(self.name@, self.url@)
    }

    open spec fn wf_value(&self) -> bool {
        self.name.wf_value() && self.url.wf_value()
    }

    fn encode(&self, out: &mut Vec<u8>) {
        self.name.encode(out);
        self.url.encode(out);
        assert(final(out)@ =~= old(out)@ + self.wire());
    }
}

impl WireDecode for Project {
    open spec fn dec(s: Seq<u8>, i: int) -> Option<(ProjectV, int)> {
        project_dec(s, i)
    }

    open spec fn dec_err(s: Seq<u8>, i: int) -> DecodingError {
        project_dec_err(s, i)
    }

    open spec fn rec(s: Seq<u8>, i: int) -> Option<int> {
        project_rec(s, i)
    }

    open spec fn rec_err(s: Seq<u8>, i: int) -> DecodingError {
        project_rec_err(s, i)
    }

    open spec fn rt() -> bool {
        true
    }

    open spec fn rec_exact() -> bool {
        false
    }

    open spec fn dec_progress() -> bool {
        true
    }

    fn decode(bytes: &mut Bytes<'_>, buf: &mut Vec<u8>) -> Result<Project, DecodingError> {
        let name = match String::decode(bytes, buf) {
            Ok(v) => v,
            Err(e) => {
                return Err(e);
            },
        };
        let url = match String::decode(bytes, buf) {
            Ok(v) => v,
            Err(e) => {
                return Err(e);
            },
        };
        Ok(Project { name, url })
    }

    fn recognize<'a>(bytes: &mut Bytes<'a>, buf: &mut Vec<u8>) -> Result<
        ByteSlice<'a, Project>,
        DecodingError,
    > {
        let mark = bytes.mark();
        match String::recognize(bytes, buf) {
            Ok(_) => {},
            Err(e) => {
                return Err(e);
            },
        }
        match String::recognize(bytes, buf) {
            Ok(_) => {},
            Err(e) => {
                return Err(e);
            },
        }
        Ok(bytes.take_slice_from(mark))
    }

    proof fn lemma_dec_in_range(s: Seq<u8>, i: int) {
        let (_, j) = String::dec(s, i)->Some_0;
        String::lemma_dec_in_range(s, i);
        String::lemma_dec_in_range(s, j);
    }

    proof fn lemma_dec_progress(s: Seq<u8>, i: int) {
        let (_, j) = String::dec(s, i)->Some_0;
        String::lemma_dec_progress(s, i);
        String::lemma_dec_in_range(s, j);
    }

    proof fn lemma_wire_dec(&self, s: Seq<u8>, i: int) {
        lemma_subrange_cat(s, i, self.name.wire(), self.url.wire());
        self.name.lemma_wire_dec(s, i);
        self.url.lemma_wire_dec(s, i + self.name.wire().len() as int);
    }

    proof fn lemma_rec_covers(s: Seq<u8>, i: int) {
        String::lemma_rec_covers(s, i);
        match String::dec(s, i) {
            Some((_, j)) => {
                String::lemma_rec_covers(s, j);
            },
            None => {},
        }
    }

    proof fn lemma_dec_frame(s: Seq<u8>, i: int, t: Seq<u8>, k: int) {
        let (_, j) = String::dec(s, i)->Some_0;
        let e = project_dec(s, i)->Some_0.1;
        String::lemma_dec_in_range(s, i);
        String::lemma_dec_in_range(s, j);
        lemma_subwindow(s, i, e, t, k, i, j);
        String::lemma_dec_frame(s, i, t, k);
        lemma_subwindow(s, i, e, t, k, j, e);
        String::lemma_dec_frame(s, j, t, k + (j - i));
    }
}

/// A person: the example schema's root record. The trailing stream field
/// contributes no bytes of its own; decoding it captures the offset where
/// the appended projects start.
#[derive(Debug)]
pub struct Person {
    pub name: String,
    pub age: Uint,
    pub pronouns: Pronouns,
    pub degree: Degree,
    pub citizenship: Country,
    pub working_hours: Vec<bool>,
    pub projects: Stream<Project>,
}

/// The abstract view of a person.
pub struct PersonV {
    pub name: Seq<char>,
    pub age: u64,
    pub pronouns: Pronouns,
    pub degree: Degree,
    pub citizenship: Seq<u8>,
    pub working_hours: Seq<bool>,
    pub projects: int,
}

impl DeepView for Person {
    type V = PersonV;

    open spec fn deep_view(&self) -> PersonV {
        PersonV {
            name: self.name@,
            age: self.age.deep_view(),
            pronouns: self.pronouns,
            degree: self.degree,
            citizenship: self.citizenship.deep_view(),
            working_hours: self.working_hours.deep_view(),
            projects: self.projects.deep_view(),
        }
    }
}

/// Decoding a person: each field in declaration order; the trailing
/// stream captures the position the earlier fields left the cursor at.
pub open spec fn person_dec(s: Seq<u8>, i: int) -> Option<(PersonV, int)> {
    match String::dec(s, i) {
        None => None,
        Some((name, p1)) => match Uint::dec(s, p1) {
            None => None,
            Some((age, p2)) => match Pronouns::dec(s, p2) {
                None => None,
                Some((pronouns, p3)) => match Degree::dec(s, p3) {
                    None => None,
                    Some((degree, p4)) => match Country::dec(s, p4) {
                        None => None,
                        Some((citizenship, p5)) => match <Vec<bool>>::dec(s, p5) {
                            None => None,
                            Some((working_hours, p6)) => match <Stream<Project>>::dec(s, p6) {
                                None => None,
                                Some((projects, p7)) => Some(
                                    (
                                        PersonV {
                                            name,
                                            age,
                                            pronouns,
                                            degree,
                                            citizenship,
                                            working_hours,
                                            projects,
                                        },
                                        p7,
                                    ),
                                ),
                            },
                        },
                    },
                },
            },
        },
    }
}

/// Which error a failed person decode reports: the failing field's.
pub open spec fn person_dec_err(s: Seq<u8>, i: int) -> DecodingError {
    match String::dec(s, i) {
        None => String::dec_err(s, i),
        Some((_, p1)) => match Uint::dec(s, p1) {
            None => Uint::dec_err(s, p1),
            Some((_, p2)) => match Pronouns::dec(s, p2) {
                None => Pronouns::dec_err(s, p2),
                Some((_, p3)) => match Degree::dec(s, p3) {
                    None => Degree::dec_err(s, p3),
                    Some((_, p4)) => match Country::dec(s, p4) {
                        None => Country::dec_err(s, p4),
                        Some((_, p5)) => match <Vec<bool>>::dec(s, p5) {
                            None => <Vec<bool>>::dec_err(s, p5),
                            Some((_, p6)) => <Stream<Project>>::dec_err(s, p6),
                        },
                    },
                },
            },
        },
    }
}

/// Recognizing a person: each field in order, strings unvalidated.
pub open spec fn person_rec(s: Seq<u8>, i: int) -> Option<int> {
    match String::rec(s, i) {
        None => None,
        Some(p1) => match Uint::rec(s, p1) {
            None => None,
            Some(p2) => match Pronouns::rec(s, p2) {
                None => None,
                Some(p3) => match Degree::rec(s, p3) {
                    None => None,
                    Some(p4) => match Country::rec(s, p4) {
                        None => None,
                        Some(p5) => match <Vec<bool>>::rec(s, p5) {
                            None => None,
                            Some(p6) => <Stream<Project>>::rec(s, p6),
                        },
                    },
                },
            },
        },
    }
}

/// Which error a failed person recognition reports.
pub open spec fn person_rec_err(s: Seq<u8>, i: int) -> DecodingError {
    match String::rec(s, i) {
        None => String::rec_err(s, i),
        Some(p1) => match Uint::rec(s, p1) {
            None => Uint::rec_err(s, p1),
            Some(p2) => match Pronouns::rec(s, p2) {
                None => Pronouns::rec_err(s, p2),
                Some(p3) => match Degree::rec(s, p3) {
                    None => Degree::rec_err(s, p3),
                    Some(p4) => match Country::rec(s, p4) {
                        None => Country::rec_err(s, p4),
                        Some(p5) => match <Vec<bool>>::rec(s, p5) {
                            None => <Vec<bool>>::rec_err(s, p5),
                            Some(p6) => <Stream<Project>>::rec_err(s, p6),
                        },
                    },
                },
            },
        },
    }
}

impl WireEncode for Person {
    /// A person's bytes: each field in declaration order. The stream field
    /// is last and pushes nothing inside the struct's own encoding.
    open spec fn wire(&self) -> Seq<u8> {
        self.name.wire() + self.age.wire() + self.pronouns.wire() + self.degree.wire()
            + self.citizenship.wire() + self.working_hours.wire() + self.projects.wire()
    }

    open spec fn wf_value(&self) -> bool {
        self.name.wf_value() && self.citizenship.wf_value()
    }

    fn encode(&self, out: &mut Vec<u8>)
    {
        self.name.encode(out);
        self.age.encode(out);
        self.pronouns.encode(out);
        self.degree.encode(out);
        self.citizenship.encode(out);
        self.working_hours.encode(out);
        self.projects.encode(out);
        assert(final(out)@ =~= old(out)@ + self.wire());
    }
}

impl WireDecode for Person {
    open spec fn dec(s: Seq<u8>, i: int) -> Option<(PersonV, int)> {
        person_dec(s, i)
    }

    open spec fn dec_err(s: Seq<u8>, i: int) -> DecodingError {
        person_dec_err(s, i)
    }

    open spec fn rec(s: Seq<u8>, i: int) -> Option<int> {
        person_rec(s, i)
    }

    open spec fn rec_err(s: Seq<u8>, i: int) -> DecodingError {
        person_rec_err(s, i)
    }

    /// A decoded person carries the stream's absolute origin offset, so
    /// re-decoding an encoding restores the value only when the stream
    /// offset matches the encoding's position.
    open spec fn rt() -> bool {
        false
    }

    open spec fn rec_exact() -> bool {
        false
    }

    open spec fn dec_progress() -> bool {
        true
    }

    fn decode(bytes: &mut Bytes<'_>, buf: &mut Vec<u8>) -> Result<Person, DecodingError> {
        let name = match String::decode(bytes, buf) {
            Ok(v) => v,
            Err(e) => {
                return Err(e);
            },
        };
        let age = match Uint::decode(bytes, buf) {
            Ok(v) => v,
            Err(e) => {
                return Err(e);
            },
        };
        let pronouns = match Pronouns::decode(bytes, buf) {
            Ok(v) => v,
            Err(e) => {
                return Err(e);
            },
        };
        let degree = match Degree::decode(bytes, buf) {
            Ok(v) => v,
            Err(e) => {
                return Err(e);
            },
        };
        let citizenship = match Country::decode(bytes, buf) {
            Ok(v) => v,
            Err(e) => {
                return Err(e);
            },
        };
        let working_hours = match <Vec<bool>>::decode(bytes, buf) {
            Ok(v) => v,
            Err(e) => {
                return Err(e);
            },
        };
        let projects = match <Stream<Project>>::decode(bytes, buf) {
            Ok(v) => v,
            Err(e) => {
                return Err(e);
            },
        };
        Ok(Person { name, age, pronouns, degree, citizenship, working_hours, projects })
    }

    fn recognize<'a>(bytes: &mut Bytes<'a>, buf: &mut Vec<u8>) -> Result<
        ByteSlice<'a, Person>,
        DecodingError,
    > {
        let mark = bytes.mark();
        match String::recognize(bytes, buf) {
            Ok(_) => {},
            Err(e) => {
                return Err(e);
            },
        }
        match Uint::recognize(bytes, buf) {
            Ok(_) => {},
            Err(e) => {
                return Err(e);
            },
        }
        match Pronouns::recognize(bytes, buf) {
            Ok(_) => {},
            Err(e) => {
                return Err(e);
            },
        }
        match Degree::recognize(bytes, buf) {
            Ok(_) => {},
            Err(e) => {
                return Err(e);
            },
        }
        match Country::recognize(bytes, buf) {
            Ok(_) => {},
            Err(e) => {
                return Err(e);
            },
        }
        match <Vec<bool>>::recognize(bytes, buf) {
            Ok(_) => {},
            Err(e) => {
                return Err(e);
            },
        }
        match <Stream<Project>>::recognize(bytes, buf) {
            Ok(_) => {},
            Err(e) => {
                return Err(e);
            },
        }
        Ok(bytes.take_slice_from(mark))
    }

    proof fn lemma_dec_in_range(s: Seq<u8>, i: int) {
        let p1 = String::dec(s, i)->Some_0.1;
        String::lemma_dec_in_range(s, i);
        let p2 = Uint::dec(s, p1)->Some_0.1;
        Uint::lemma_dec_in_range(s, p1);
        let p3 = Pronouns::dec(s, p2)->Some_0.1;
        Pronouns::lemma_dec_in_range(s, p2);
        let p4 = Degree::dec(s, p3)->Some_0.1;
        Degree::lemma_dec_in_range(s, p3);
        let p5 = Country::dec(s, p4)->Some_0.1;
        Country::lemma_dec_in_range(s, p4);
        let p6 = <Vec<bool>>::dec(s, p5)->Some_0.1;
        <Vec<bool>>::lemma_dec_in_range(s, p5);
        <Stream<Project>>::lemma_dec_in_range(s, p6);
    }

    proof fn lemma_dec_progress(s: Seq<u8>, i: int) {
        let p1 = String::dec(s, i)->Some_0.1;
        String::lemma_dec_progress(s, i);
        let p2 = Uint::dec(s, p1)->Some_0.1;
        Uint::lemma_dec_in_range(s, p1);
        let p3 = Pronouns::dec(s, p2)->Some_0.1;
        Pronouns::lemma_dec_in_range(s, p2);
        let p4 = Degree::dec(s, p3)->Some_0.1;
        Degree::lemma_dec_in_range(s, p3);
        let p5 = Country::dec(s, p4)->Some_0.1;
        Country::lemma_dec_in_range(s, p4);
        let p6 = <Vec<bool>>::dec(s, p5)->Some_0.1;
        <Vec<bool>>::lemma_dec_in_range(s, p5);
        <Stream<Project>>::lemma_dec_in_range(s, p6);
    }

    proof fn lemma_wire_dec(&self, s: Seq<u8>, i: int) {
    }

    proof fn lemma_rec_covers(s: Seq<u8>, i: int) {
        String::lemma_rec_covers(s, i);
        match String::dec(s, i) {
            None => {},
            Some((_, p1)) => {
                Uint::lemma_rec_covers(s, p1);
                match Uint::dec(s, p1) {
                    None => {},
                    Some((_, p2)) => {
                        Pronouns::lemma_rec_covers(s, p2);
                        match Pronouns::dec(s, p2) {
                            None => {},
                            Some((_, p3)) => {
                                Degree::lemma_rec_covers(s, p3);
                                match Degree::dec(s, p3) {
                                    None => {},
                                    Some((_, p4)) => {
                                        Country::lemma_rec_covers(s, p4);
                                        match Country::dec(s, p4) {
                                            None => {},
                                            Some((_, p5)) => {
                                                <Vec<bool>>::lemma_rec_covers(s, p5);
                                                match <Vec<bool>>::dec(s, p5) {
                                                    None => {},
                                                    Some((_, p6)) => {
                                                        <Stream<Project>>::lemma_rec_covers(s, p6);
                                                    },
                                                }
                                            },
                                        }
                                    },
                                }
                            },
                        }
                    },
                }
            },
        }
    }

    proof fn lemma_dec_frame(s: Seq<u8>, i: int, t: Seq<u8>, k: int) {
    }
}

/// Persons compare field by field; citizenship compares by the set of
/// declared flags.
impl PartialEq for Person {
    fn eq(&self, other: &Self) -> (r: bool) {
        let names = self.name.eq(&other.name);
        let hours = vec_bool_eq(&self.working_hours, &other.working_hours);
        names && self.age.0 == other.age.0 && self.pronouns == other.pronouns && self.degree
            == other.degree && self.citizenship.eq(&other.citizenship) && hours
            && self.projects.eq(&other.projects)
    }
}

impl vstd::std_specs::cmp::PartialEqSpecImpl for Person {
    open spec fn obeys_eq_spec() -> bool {
        true
    }

    open spec fn eq_spec(&self, other: &Self) -> bool {
        &&& self.name@ == other.name@
        &&& self.age == other.age
        &&& self.pronouns == other.pronouns
        &&& self.degree == other.degree
        &&& crate::imp::special::flags_eq(&self.citizenship, &other.citizenship)
        &&& self.working_hours@ == other.working_hours@
        &&& self.projects.offset() == other.projects.offset()
    }
}

/// Boolean vectors compare element by element.
pub fn vec_bool_eq(a: &Vec<bool>, b: &Vec<bool>) -> (r: bool)
    ensures
        r == (a@ == b@),
{
    if a.len() != b.len() {
        return false;
    }
    let n = a.len();
    let mut k: usize = 0;
    while k < n
        invariant
            k <= n,
            n == a@.len(),
            n == b@.len(),
            forall|x: int| 0 <= x < k ==> a@[x] == b@[x],
        decreases n - k,
    {
        if a[k] != b[k] {
            return false;
        }
        k = k + 1;
    }
    proof {
        assert(a@ =~= b@);
    }
    true
}

/// Projects compare field by field.
impl PartialEq for Project {
    fn eq(&self, other: &Self) -> (r: bool) {
        self.name.eq(&other.name) && self.url.eq(&other.url)
    }
}

impl vstd::std_specs::cmp::PartialEqSpecImpl for Project {
    open spec fn obeys_eq_spec() -> bool {
        true
    }

    open spec fn eq_spec(&self, other: &Self) -> bool {
        self.name@ == other.name@ && self.url@ == other.url@
    }
}

} // verus!

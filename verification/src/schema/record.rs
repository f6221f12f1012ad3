//! Wire types exercising the remaining shapes of the generated-type
//! protocol: a struct with optional fields (which travel behind a packed
//! presence bitmap), a plain struct of strings, and an enum whose fielded
//! variant carries two primitives.

use vstd::prelude::*;

use crate::base::boolean::{self, bit_of, bool_dec_n, spec_byte_size};
use crate::base::utils::{self, disc_dec};
use crate::bytes::{ByteSlice, Bytes};
use crate::errors::{eof, invalid_prefix, DecodingError};
use crate::traits::{lemma_subrange_cat, lemma_subwindow, Decodable, WireDecode, WireEncode};
use crate::values::Uint;

verus! {

/// A record with two optional fields. On the wire a packed boolean run of
/// the optionals' presence bits comes first, then each field in
/// declaration order, optional fields only when present.
#[derive(Debug)]
pub struct Record {
    pub string: String,
    pub optional1: Option<Uint>,
    pub generic: Vec<bool>,
    pub optional2: Option<Uint>,
}

/// The abstract view of a record.
pub struct RecordV {
    pub string: Seq<char>,
    pub optional1: Option<u64>,
    pub generic: Seq<bool>,
    pub optional2: Option<u64>,
}

/// The record's presence bits, in optional-field declaration order.
pub open spec fn record_presence(v: &Record) -> Seq<bool> {
    seq![v.optional1 is Some, v.optional2 is Some]
}

/// The wire bytes of an optional field: nothing when absent.
pub open spec fn opt_uint_wire(v: Option<Uint>) -> Seq<u8> {
    match v {
        Some(u) => u.wire(),
        None => Seq::empty(),
    }
}

/// The wire bytes of a record: the packed presence bits, then each field
/// in declaration order, optionals only when present.
pub open spec fn record_wire(v: &Record) -> Seq<u8> {
    boolean::bool_wire_n(record_presence(v)) + v.string.wire() + opt_uint_wire(v.optional1)
        + v.generic.wire() + opt_uint_wire(v.optional2)
}

/// Decoding a record: the presence bits, then each field in order, the
/// optionals read only when their bit is set.
pub open spec fn record_dec(s: Seq<u8>, i: int) -> Option<(RecordV, int)> {
    match bool_dec_n(s, i, 2) {
        None => None,
        Some((bits, p0)) => match String::dec(s, p0) {
            None => None,
            Some((string, p1)) => {
                let step1: Option<(Option<u64>, int)> = if bits[0] {
                    match Uint::dec(s, p1) {
                        None => None,
                        Some((u, p2)) => Some((Some(u), p2)),
                    }
                } else {
                    Some((None, p1))
                };
                match step1 {
                    None => None,
                    Some((optional1, p2)) => match <Vec<bool>>::dec(s, p2) {
                        None => None,
                        Some((generic, p3)) => {
                            let step2: Option<(Option<u64>, int)> = if bits[1] {
                                match Uint::dec(s, p3) {
                                    None => None,
                                    Some((u, p4)) => Some((Some(u), p4)),
                                }
                            } else {
                                Some((None, p3))
                            };
                            match step2 {
                                None => None,
                                Some((optional2, p4)) => Some(
                                    (RecordV { string, optional1, generic, optional2 }, p4),
                                ),
                            }
                        },
                    },
                }
            },
        },
    }
}

/// Which error a failed record decode reports: the failing step's.
pub open spec fn record_dec_err(s: Seq<u8>, i: int) -> DecodingError {
    match bool_dec_n(s, i, 2) {
        None => eof(i),
        Some((bits, p0)) => match String::dec(s, p0) {
            None => String::dec_err(s, p0),
            Some((_, p1)) => {
                if bits[0] && Uint::dec(s, p1) is None {
                    Uint::dec_err(s, p1)
                } else {
                    let p2 = if bits[0] {
                        Uint::dec(s, p1)->Some_0.1
                    } else {
                        p1
                    };
                    match <Vec<bool>>::dec(s, p2) {
                        None => <Vec<bool>>::dec_err(s, p2),
                        Some((_, p3)) => Uint::dec_err(s, p3),
                    }
                }
            },
        },
    }
}

/// Recognizing a record: the same walk, strings unvalidated.
pub open spec fn record_rec(s: Seq<u8>, i: int) -> Option<int> {
    match bool_dec_n(s, i, 2) {
        None => None,
        Some((bits, p0)) => match String::rec(s, p0) {
            None => None,
            Some(p1) => {
                let step1: Option<int> = if bits[0] {
                    Uint::rec(s, p1)
                } else {
                    Some(p1)
                };
                match step1 {
                    None => None,
                    Some(p2) => match <Vec<bool>>::rec(s, p2) {
                        None => None,
                        Some(p3) => if bits[1] {
                            Uint::rec(s, p3)
                        } else {
                            Some(p3)
                        },
                    },
                }
            },
        },
    }
}

/// Which error a failed record recognition reports.
pub open spec fn record_rec_err(s: Seq<u8>, i: int) -> DecodingError {
    match bool_dec_n(s, i, 2) {
        None => eof(i),
        Some((bits, p0)) => match String::rec(s, p0) {
            None => String::rec_err(s, p0),
            Some(p1) => {
                if bits[0] && Uint::rec(s, p1) is None {
                    Uint::rec_err(s, p1)
                } else {
                    let p2 = if bits[0] {
                        Uint::rec(s, p1)->Some_0
                    } else {
                        p1
                    };
                    match <Vec<bool>>::rec(s, p2) {
                        None => <Vec<bool>>::rec_err(s, p2),
                        Some(p3) => Uint::rec_err(s, p3),
                    }
                }
            },
        },
    }
}

impl DeepView for Record {
    type V = RecordV;

    open spec fn deep_view(&self) -> RecordV {
        RecordV {
            string: self.string@,
            optional1: match self.optional1 {
                Some(u) => Some(u.deep_view()),
                None => None,
            },
            generic: self.generic.deep_view(),
            optional2: match self.optional2 {
                Some(u) => Some(u.deep_view()),
                None => None,
            },
        }
    }
}

impl WireEncode for Record {
    open spec fn wire(&self) -> Seq<u8> {
        record_wire(self)
    }

    open spec fn wf_value(&self) -> bool {
        self.string.wf_value()
    }

    fn encode(&self, out: &mut Vec<u8>) {
        let mut presence: Vec<bool> = Vec::new();
        presence.push(self.optional1.is_some());
        presence.push(self.optional2.is_some());
        assert(presence@ =~= record_presence(self));
        boolean::encode_many(presence.as_slice(), out);
        self.string.encode(out);
        match &self.optional1 {
            Some(u) => u.encode(out),
            None => {},
        }
        self.generic.encode(out);
        match &self.optional2 {
            Some(u) => u.encode(out),
            None => {},
        }
        assert(final(out)@ =~= old(out)@ + self.wire());
    }
}

impl WireDecode for Record {
    open spec fn dec(s: Seq<u8>, i: int) -> Option<(RecordV, int)> {
        record_dec(s, i)
    }

    open spec fn dec_err(s: Seq<u8>, i: int) -> DecodingError {
        record_dec_err(s, i)
    }

    open spec fn rec(s: Seq<u8>, i: int) -> Option<int> {
        record_rec(s, i)
    }

    open spec fn rec_err(s: Seq<u8>, i: int) -> DecodingError {
        record_rec_err(s, i)
    }

    open spec fn rt() -> bool {
        true
    }

    open spec fn rec_exact() -> bool {
        false
    }

    open spec fn dec_progress() -> bool {
        true
    }

    fn decode(bytes: &mut Bytes<'_>, buf: &mut Vec<u8>) -> Result<Record, DecodingError> {
        let mut presence: Vec<bool> = Vec::new();
        match boolean::decode_many(bytes, 2, &mut presence) {
            Ok(()) => {},
            Err(e) => {
                return Err(e);
            },
        }
        let has1 = presence[0];
        let has2 = presence[1];
        let string = match String::decode(bytes, buf) {
            Ok(v) => v,
            Err(e) => {
                return Err(e);
            },
        };
        let optional1: Option<Uint> = if has1 {
            match Uint::decode(bytes, buf) {
                Ok(v) => Some(v),
                Err(e) => {
                    return Err(e);
                },
            }
        } else {
            None
        };
        let generic = match <Vec<bool>>::decode(bytes, buf) {
            Ok(v) => v,
            Err(e) => {
                return Err(e);
            },
        };
        let optional2: Option<Uint> = if has2 {
            match Uint::decode(bytes, buf) {
                Ok(v) => Some(v),
                Err(e) => {
                    return Err(e);
                },
            }
        } else {
            None
        };
        Ok(Record { string, optional1, generic, optional2 })
    }

    fn recognize<'a>(bytes: &mut Bytes<'a>, buf: &mut Vec<u8>) -> Result<
        ByteSlice<'a, Record>,
        DecodingError,
    > {
        let mark = bytes.mark();
        let mut presence: Vec<bool> = Vec::new();
        match boolean::decode_many(bytes, 2, &mut presence) {
            Ok(()) => {},
            Err(e) => {
                return Err(e);
            },
        }
        let has1 = presence[0];
        let has2 = presence[1];
        match String::recognize(bytes, buf) {
            Ok(_) => {},
            Err(e) => {
                return Err(e);
            },
        }
        if has1 {
            match Uint::recognize(bytes, buf) {
                Ok(_) => {},
                Err(e) => {
                    return Err(e);
                },
            }
        }
        match <Vec<bool>>::recognize(bytes, buf) {
            Ok(_) => {},
            Err(e) => {
                return Err(e);
            },
        }
        if has2 {
            match Uint::recognize(bytes, buf) {
                Ok(_) => {},
                Err(e) => {
                    return Err(e);
                },
            }
        }
        Ok(bytes.take_slice_from(mark))
    }

    proof fn lemma_dec_in_range(s: Seq<u8>, i: int) {
        let (bits, p0) = bool_dec_n(s, i, 2)->Some_0;
        let p1 = String::dec(s, p0)->Some_0.1;
        String::lemma_dec_in_range(s, p0);
        let p2 = if bits[0] {
            Uint::lemma_dec_in_range(s, p1);
            Uint::dec(s, p1)->Some_0.1
        } else {
            p1
        };
        let p3 = <Vec<bool>>::dec(s, p2)->Some_0.1;
        <Vec<bool>>::lemma_dec_in_range(s, p2);
        if bits[1] {
            Uint::lemma_dec_in_range(s, p3);
        }
    }

    proof fn lemma_dec_progress(s: Seq<u8>, i: int) {
        Self::lemma_dec_in_range(s, i);
    }

    #[verifier::rlimit(60)]
    proof fn lemma_wire_dec(&self, s: Seq<u8>, i: int) {
        let pres = boolean::bool_wire_n(record_presence(self));
        let rest1 = self.string.wire() + opt_uint_wire(self.optional1) + self.generic.wire()
            + opt_uint_wire(self.optional2);
        assert(self.wire() =~= pres + rest1);
        lemma_subrange_cat(s, i, pres, rest1);
        boolean::lemma_bool_wire_bits(record_presence(self));
        assert(bool_dec_n(s, i, 2) == Some((record_presence(self), i + 1))) by {
            assert(spec_byte_size(2) == 1);
            assert(s.subrange(i, i + 1) =~= pres);
            assert(crate::base::boolean::bits_of(pres, 2) =~= record_presence(self));
        }
        let p0 = i + 1;
        let w1 = self.string.wire();
        let rest2 = opt_uint_wire(self.optional1) + self.generic.wire() + opt_uint_wire(
            self.optional2,
        );
        assert(rest1 =~= w1 + rest2);
        lemma_subrange_cat(s, p0, w1, rest2);
        self.string.lemma_wire_dec(s, p0);
        let p1 = p0 + w1.len() as int;
        let w2 = opt_uint_wire(self.optional1);
        let rest3 = self.generic.wire() + opt_uint_wire(self.optional2);
        assert(rest2 =~= w2 + rest3);
        lemma_subrange_cat(s, p1, w2, rest3);
        match self.optional1 {
            Some(u) => {
                u.lemma_wire_dec(s, p1);
            },
            None => {},
        }
        let p2 = p1 + w2.len() as int;
        let w3 = self.generic.wire();
        let w4 = opt_uint_wire(self.optional2);
        assert(rest3 =~= w3 + w4);
        lemma_subrange_cat(s, p2, w3, w4);
        self.generic.lemma_wire_dec(s, p2);
        let p3 = p2 + w3.len() as int;
        match self.optional2 {
            Some(u) => {
                u.lemma_wire_dec(s, p3);
            },
            None => {},
        }
        assert(record_presence(self)[0] == (self.optional1 is Some));
        assert(record_presence(self)[1] == (self.optional2 is Some));
    }

    proof fn lemma_rec_covers(s: Seq<u8>, i: int) {
        match bool_dec_n(s, i, 2) {
            None => {},
            Some((bits, p0)) => {
                String::lemma_rec_covers(s, p0);
                match String::rec(s, p0) {
                    None => {},
                    Some(p1) => {
                        let step1: Option<int> = if bits[0] {
                            Uint::rec(s, p1)
                        } else {
                            Some(p1)
                        };
                        match step1 {
                            None => {},
                            Some(p2) => {
                                match <Vec<bool>>::rec(s, p2) {
                                    None => {},
                                    Some(p3) => {},
                                }
                            },
                        }
                    },
                }
            },
        }
    }

    #[verifier::rlimit(60)]
    proof fn lemma_dec_frame(s: Seq<u8>, i: int, t: Seq<u8>, k: int) {
        let (bits, p0) = bool_dec_n(s, i, 2)->Some_0;
        let e = record_dec(s, i)->Some_0.1;
        Self::lemma_dec_in_range(s, i);
        let p1 = String::dec(s, p0)->Some_0.1;
        String::lemma_dec_in_range(s, p0);
        let p2 = if bits[0] {
            Uint::lemma_dec_in_range(s, p1);
            Uint::dec(s, p1)->Some_0.1
        } else {
            p1
        };
        let p3 = <Vec<bool>>::dec(s, p2)->Some_0.1;
        <Vec<bool>>::lemma_dec_in_range(s, p2);
        if bits[1] {
            Uint::lemma_dec_in_range(s, p3);
        }
        // the presence byte
        lemma_subwindow(s, i, e, t, k, i, i + 1);
        assert(t[k] == t.subrange(k, k + 1)[0]);
        assert(s[i] == s.subrange(i, i + 1)[0]);
        assert(bool_dec_n(t, k, 2) == Some((bits, k + 1))) by {
            assert(spec_byte_size(2) == 1);
            assert(crate::base::boolean::bits_of(t.subrange(k, k + 1), 2) =~= crate
                ::base::boolean::bits_of(s.subrange(i, i + 1), 2));
        }
        // each field in turn
        lemma_subwindow(s, i, e, t, k, p0, p1);
        String::lemma_dec_frame(s, p0, t, k + (p0 - i));
        if bits[0] {
            lemma_subwindow(s, i, e, t, k, p1, p2);
            Uint::lemma_dec_frame(s, p1, t, k + (p1 - i));
        }
        lemma_subwindow(s, i, e, t, k, p2, p3);
        <Vec<bool>>::lemma_dec_frame(s, p2, t, k + (p2 - i));
        if bits[1] {
            lemma_subwindow(s, i, e, t, k, p3, e);
            Uint::lemma_dec_frame(s, p3, t, k + (p3 - i));
        }
    }
}

/// Records compare field by field.
impl PartialEq for Record {
    fn eq(&self, other: &Self) -> (r: bool) {
        let opts1 = match (&self.optional1, &other.optional1) {
            (Some(a), Some(b)) => a.0 == b.0,
            (None, None) => true,
            _ => false,
        };
        let opts2 = match (&self.optional2, &other.optional2) {
            (Some(a), Some(b)) => a.0 == b.0,
            (None, None) => true,
            _ => false,
        };
        self.string.eq(&other.string) && opts1 && crate::schema::person::vec_bool_eq(
            &self.generic,
            &other.generic,
        ) && opts2
    }
}

impl vstd::std_specs::cmp::PartialEqSpecImpl for Record {
    open spec fn obeys_eq_spec() -> bool {
        true
    }

    open spec fn eq_spec(&self, other: &Self) -> bool {
        &&& self.string@ == other.string@
        &&& self.optional1 == other.optional1
        &&& self.generic@ == other.generic@
        &&& self.optional2 == other.optional2
    }
}

/// A short message: three string fields, no optionals.
#[derive(Debug)]
pub struct Message {
    pub from: String,
    pub to: String,
    pub text: String,
}

/// The abstract view of a message.
pub struct MessageV {
    pub from: Seq<char>,
    pub to: Seq<char>,
    pub text: Seq<char>,
}

/// Decoding a message: its fields in declaration order.
pub open spec fn message_dec(s: Seq<u8>, i: int) -> Option<(MessageV, int)> {
    match String::dec(s, i) {
        None => None,
        Some((from, p1)) => match String::dec(s, p1) {
            None => None,
            Some((to, p2)) => match String::dec(s, p2) {
                None => None,
                Some((text, p3)) => Some((MessageV { from, to, text }, p3)),
            },
        },
    }
}

/// Which error a failed message decode reports.
pub open spec fn message_dec_err(s: Seq<u8>, i: int) -> DecodingError {
    match String::dec(s, i) {
        None => String::dec_err(s, i),
        Some((_, p1)) => match String::dec(s, p1) {
            None => String::dec_err(s, p1),
            Some((_, p2)) => String::dec_err(s, p2),
        },
    }
}

/// Recognizing a message.
pub open spec fn message_rec(s: Seq<u8>, i: int) -> Option<int> {
    match String::rec(s, i) {
        None => None,
        Some(p1) => match String::rec(s, p1) {
            None => None,
            Some(p2) => String::rec(s, p2),
        },
    }
}

/// Which error a failed message recognition reports.
pub open spec fn message_rec_err(s: Seq<u8>, i: int) -> DecodingError {
    match String::rec(s, i) {
        None => String::rec_err(s, i),
        Some(p1) => match String::rec(s, p1) {
            None => String::rec_err(s, p1),
            Some(p2) => String::rec_err(s, p2),
        },
    }
}

impl DeepView for Message {
    type V = MessageV;

    open spec fn deep_view(&self) -> MessageV {
        MessageV { from: self.from@, to: self.to@, text: self.text@ }
    }
}

impl WireEncode for Message {
    open spec fn wire(&self) -> Seq<u8> {
        self.from.wire() + self.to.wire() + self.text.wire()
    }

    open spec fn wf_value(&self) -> bool {
        self.from.wf_value() && self.to.wf_value() && self.text.wf_value()
    }

    fn encode(&self, out: &mut Vec<u8>) {
        self.from.encode(out);
        self.to.encode(out);
        self.text.encode(out);
        assert(final(out)@ =~= old(out)@ + self.wire());
    }
}

impl WireDecode for Message {
    open spec fn dec(s: Seq<u8>, i: int) -> Option<(MessageV, int)> {
        message_dec(s, i)
    }

    open spec fn dec_err(s: Seq<u8>, i: int) -> DecodingError {
        message_dec_err(s, i)
    }

    open spec fn rec(s: Seq<u8>, i: int) -> Option<int> {
        message_rec(s, i)
    }

    open spec fn rec_err(s: Seq<u8>, i: int) -> DecodingError {
        message_rec_err(s, i)
    }

    open spec fn rt() -> bool {
        true
    }

    open spec fn rec_exact() -> bool {
        false
    }

    open spec fn dec_progress() -> bool {
        true
    }

    fn decode(bytes: &mut Bytes<'_>, buf: &mut Vec<u8>) -> Result<Message, DecodingError> {
        let from = match String::decode(bytes, buf) {
            Ok(v) => v,
            Err(e) => {
                return Err(e);
            },
        };
        let to = match String::decode(bytes, buf) {
            Ok(v) => v,
            Err(e) => {
                return Err(e);
            },
        };
        let text = match String::decode(bytes, buf) {
            Ok(v) => v,
            Err(e) => {
                return Err(e);
            },
        };
        Ok(Message { from, to, text })
    }

    fn recognize<'a>(bytes: &mut Bytes<'a>, buf: &mut Vec<u8>) -> Result<
        ByteSlice<'a, Message>,
        DecodingError,
    > {
        let mark = bytes.mark();
        match String::recognize(bytes, buf) {
            Ok(_) => {},
            Err(e) => {
                return Err(e);
            },
        }
        match String::recognize(bytes, buf) {
            Ok(_) => {},
            Err(e) => {
                return Err(e);
            },
        }
        match String::recognize(bytes, buf) {
            Ok(_) => {},
            Err(e) => {
                return Err(e);
            },
        }
        Ok(bytes.take_slice_from(mark))
    }

    proof fn lemma_dec_in_range(s: Seq<u8>, i: int) {
        let (_, p1) = String::dec(s, i)->Some_0;
        String::lemma_dec_in_range(s, i);
        let (_, p2) = String::dec(s, p1)->Some_0;
        String::lemma_dec_in_range(s, p1);
        String::lemma_dec_in_range(s, p2);
    }

    proof fn lemma_dec_progress(s: Seq<u8>, i: int) {
        let (_, p1) = String::dec(s, i)->Some_0;
        String::lemma_dec_progress(s, i);
        let (_, p2) = String::dec(s, p1)->Some_0;
        String::lemma_dec_in_range(s, p1);
        String::lemma_dec_in_range(s, p2);
    }

    proof fn lemma_wire_dec(&self, s: Seq<u8>, i: int) {
        let w1 = self.from.wire();
        let rest = self.to.wire() + self.text.wire();
        assert(self.wire() =~= w1 + rest);
        lemma_subrange_cat(s, i, w1, rest);
        self.from.lemma_wire_dec(s, i);
        let p1 = i + w1.len() as int;
        lemma_subrange_cat(s, p1, self.to.wire(), self.text.wire());
        self.to.lemma_wire_dec(s, p1);
        self.text.lemma_wire_dec(s, p1 + self.to.wire().len() as int);
    }

    proof fn lemma_rec_covers(s: Seq<u8>, i: int) {
        String::lemma_rec_covers(s, i);
        match String::dec(s, i) {
            None => {},
            Some((_, p1)) => {
                String::lemma_rec_covers(s, p1);
                match String::dec(s, p1) {
                    None => {},
                    Some((_, p2)) => {
                        String::lemma_rec_covers(s, p2);
                    },
                }
            },
        }
    }

    proof fn lemma_dec_frame(s: Seq<u8>, i: int, t: Seq<u8>, k: int) {
        let (_, p1) = String::dec(s, i)->Some_0;
        let (_, p2) = String::dec(s, p1)->Some_0;
        let e = message_dec(s, i)->Some_0.1;
        String::lemma_dec_in_range(s, i);
        String::lemma_dec_in_range(s, p1);
        String::lemma_dec_in_range(s, p2);
        lemma_subwindow(s, i, e, t, k, i, p1);
        String::lemma_dec_frame(s, i, t, k);
        lemma_subwindow(s, i, e, t, k, p1, p2);
        String::lemma_dec_frame(s, p1, t, k + (p1 - i));
        lemma_subwindow(s, i, e, t, k, p2, e);
        String::lemma_dec_frame(s, p2, t, k + (p2 - i));
    }
}

/// Messages compare field by field.
impl PartialEq for Message {
    fn eq(&self, other: &Self) -> (r: bool) {
        self.from.eq(&other.from) && self.to.eq(&other.to) && self.text.eq(&other.text)
    }
}

impl vstd::std_specs::cmp::PartialEqSpecImpl for Message {
    open spec fn obeys_eq_spec() -> bool {
        true
    }

    open spec fn eq_spec(&self, other: &Self) -> bool {
        self.from@ == other.from@ && self.to@ == other.to@ && self.text@ == other.text@
    }
}

/// A two-variant enum whose second variant carries two primitive fields.
#[derive(Debug, Clone, Copy, PartialEq, Eq, Structural)]
pub enum Choice {
    Foo,
    Bar { number: Uint, boolean: bool },
}

/// The wire bytes of a choice: its discriminant, then the variant's
/// fields in order.
pub open spec fn choice_wire(v: Choice) -> Seq<u8> {
    match v {
        Choice::Foo => seq![0u8],
        Choice::Bar { number, boolean } => seq![1u8] + number.wire() + boolean.wire(),
    }
}

/// Decoding a choice.
pub open spec fn choice_dec(s: Seq<u8>, i: int) -> Option<(Choice, int)> {
    match disc_dec(s, i) {
        None => None,
        Some((d, j)) => {
            if d == 0 {
                Some((Choice::Foo, j))
            } else if d == 1 {
                match Uint::dec(s, j) {
                    None => None,
                    Some((n, k)) => match bool::dec(s, k) {
                        None => None,
                        Some((b, m)) => Some((Choice::Bar { number: Uint(n), boolean: b }, m)),
                    },
                }
            } else {
                None
            }
        },
    }
}

/// Which error a failed choice decode reports.
pub open spec fn choice_dec_err(s: Seq<u8>, i: int) -> DecodingError {
    match disc_dec(s, i) {
        None => eof(i),
        Some((d, j)) => {
            if d == 1 {
                match Uint::dec(s, j) {
                    None => Uint::dec_err(s, j),
                    Some((_, k)) => bool::dec_err(s, k),
                }
            } else {
                invalid_prefix(i)
            }
        },
    }
}

impl DeepView for Choice {
    type V = Choice;

    open spec fn deep_view(&self) -> Choice {
        *self
    }
}

impl WireEncode for Choice {
    open spec fn wire(&self) -> Seq<u8> {
        choice_wire(*self)
    }

    open spec fn wf_value(&self) -> bool {
        true
    }

    fn encode(&self, out: &mut Vec<u8>) {
        match self {
            Choice::Foo => {
                utils::encode_discriminant(0, out);
            },
            Choice::Bar { number, boolean } => {
                utils::encode_discriminant(1, out);
                number.encode(out);
                boolean.encode(out);
            },
        }
        assert(final(out)@ =~= old(out)@ + self.wire());
    }
}

impl WireDecode for Choice {
    open spec fn dec(s: Seq<u8>, i: int) -> Option<(Choice, int)> {
        choice_dec(s, i)
    }

    open spec fn dec_err(s: Seq<u8>, i: int) -> DecodingError {
        choice_dec_err(s, i)
    }

    open spec fn rec(s: Seq<u8>, i: int) -> Option<int> {
        match choice_dec(s, i) {
            Some((_, j)) => Some(j),
            None => None,
        }
    }

    open spec fn rec_err(s: Seq<u8>, i: int) -> DecodingError {
        choice_dec_err(s, i)
    }

    open spec fn rt() -> bool {
        true
    }

    open spec fn rec_exact() -> bool {
        true
    }

    open spec fn dec_progress() -> bool {
        true
    }

    fn decode(bytes: &mut Bytes<'_>, buf: &mut Vec<u8>) -> Result<Choice, DecodingError> {
        let start = bytes.mark().to_usize();
        let d = match utils::decode_discriminant(bytes) {
            Ok(d) => d,
            Err(e) => {
                return Err(e);
            },
        };
        match d {
            0 => Ok(Choice::Foo),
            1 => {
                let number = match Uint::decode(bytes, buf) {
                    Ok(v) => v,
                    Err(e) => {
                        return Err(e);
                    },
                };
                let boolean = match bool::decode(bytes, buf) {
                    Ok(v) => v,
                    Err(e) => {
                        return Err(e);
                    },
                };
                Ok(Choice::Bar { number, boolean })
            },
            _ => Err(DecodingError::invalid_prefix_at(start)),
        }
    }

    fn recognize<'a>(bytes: &mut Bytes<'a>, buf: &mut Vec<u8>) -> Result<
        ByteSlice<'a, Choice>,
        DecodingError,
    > {
        let mark = bytes.mark();
        match Self::decode(bytes, buf) {
            Ok(_) => Ok(bytes.take_slice_from(mark)),
            Err(e) => Err(e),
        }
    }

    proof fn lemma_dec_in_range(s: Seq<u8>, i: int) {
        match disc_dec(s, i) {
            Some((d, j)) => {
                if d == 1 {
                    let (_, k) = Uint::dec(s, j)->Some_0;
                    Uint::lemma_dec_in_range(s, j);
                    bool::lemma_dec_in_range(s, k);
                }
            },
            None => {},
        }
    }

    proof fn lemma_dec_progress(s: Seq<u8>, i: int) {
        Self::lemma_dec_in_range(s, i);
    }

    proof fn lemma_wire_dec(&self, s: Seq<u8>, i: int) {
        match *self {
            Choice::Foo => {
                assert(s[i] == self.wire()[0]);
            },
            Choice::Bar { number, boolean } => {
                let rest = number.wire() + boolean.wire();
                assert(self.wire() =~= seq![1u8] + rest);
                lemma_subrange_cat(s, i, seq![1u8], rest);
                assert(s[i] == s.subrange(i, i + 1)[0]);
                lemma_subrange_cat(s, i + 1, number.wire(), boolean.wire());
                number.lemma_wire_dec(s, i + 1);
                boolean.lemma_wire_dec(s, i + 1 + number.wire().len() as int);
                assert(Uint(number.deep_view()) == number);
            },
        }
    }

    proof fn lemma_rec_covers(s: Seq<u8>, i: int) {
    }

    proof fn lemma_dec_frame(s: Seq<u8>, i: int, t: Seq<u8>, k: int) {
        let (d, j) = disc_dec(s, i)->Some_0;
        let e = choice_dec(s, i)->Some_0.1;
        assert(t[k] == t.subrange(k, k + (e - i))[0]);
        assert(s[i] == s.subrange(i, e)[0]);
        if d == 1 {
            let (_, m) = Uint::dec(s, j)->Some_0;
            Uint::lemma_dec_in_range(s, j);
            bool::lemma_dec_in_range(s, m);
            lemma_subwindow(s, i, e, t, k, j, m);
            Uint::lemma_dec_frame(s, j, t, k + (j - i));
            lemma_subwindow(s, i, e, t, k, m, e);
            bool::lemma_dec_frame(s, m, t, k + (m - i));
        }
    }
}

} // verus!

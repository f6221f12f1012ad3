//! By-parts recognition for the record: a state machine that yields one
//! typed byte window per field, without decoding. The first error aborts
//! the walk with a single error item; consuming every item moves the
//! cursor exactly as the whole-struct recognizer would.

use vstd::prelude::*;

use crate::base::boolean::{self, bool_dec_n};
use crate::bytes::{ByteSlice, Bytes};
use crate::errors::DecodingError;
use crate::schema::record::{record_rec, Record};
use crate::traits::WireDecode;
use crate::values::Uint;

verus! {

/// One recognized field of a record: its window, or `None` for an absent
/// optional field.
#[derive(Debug)]
pub enum RecordPart<'a> {
    StringField(ByteSlice<'a, String>),
    Optional1(Option<ByteSlice<'a, Uint>>),
    Generic(ByteSlice<'a, Vec<bool>>),
    Optional2(Option<ByteSlice<'a, Uint>>),
}

/// The cursor position after the presence bitmap and the first `k` field
/// items of a record starting at `i`.
pub open spec fn record_chain(s: Seq<u8>, i: int, k: int) -> Option<int>
    decreases k,
{
    if k <= 0 {
        match bool_dec_n(s, i, 2) {
            None => None,
            Some((_, p0)) => Some(p0),
        }
    } else {
        match record_chain(s, i, k - 1) {
            None => None,
            Some(p) => {
                let bits = bool_dec_n(s, i, 2)->Some_0.0;
                if k == 1 {
                    String::rec(s, p)
                } else if k == 2 {
                    if bits[0] {
                        Uint::rec(s, p)
                    } else {
                        Some(p)
                    }
                } else if k == 3 {
                    <Vec<bool>>::rec(s, p)
                } else if k == 4 {
                    if bits[1] {
                        Uint::rec(s, p)
                    } else {
                        Some(p)
                    }
                } else {
                    Some(p)
                }
            },
        }
    }
}

/// The whole-struct recognizer ends exactly where the by-parts chain
/// ends: the field windows, in order after the presence bitmap, tile the
/// recognized byte range.
pub proof fn lemma_record_by_parts_cover(s: Seq<u8>, i: int)
    requires
        record_rec(s, i) is Some,
    ensures
        record_chain(s, i, 4) == Some(record_rec(s, i)->Some_0),
        ({
            let e = record_rec(s, i)->Some_0;
            let p0 = record_chain(s, i, 0)->Some_0;
            let p1 = record_chain(s, i, 1)->Some_0;
            let p2 = record_chain(s, i, 2)->Some_0;
            let p3 = record_chain(s, i, 3)->Some_0;
            &&& i <= p0 <= p1 <= p2 <= p3 <= e
            &&& s.subrange(i, e) == s.subrange(i, p0) + s.subrange(p0, p1) + s.subrange(p1, p2)
                + s.subrange(p2, p3) + s.subrange(p3, e)
        }),
{
    let (bits, p0) = bool_dec_n(s, i, 2)->Some_0;
    let p1 = String::rec(s, p0)->Some_0;
    let e = record_rec(s, i)->Some_0;
    assert(record_chain(s, i, 0) == Some(p0));
    assert(record_chain(s, i, 1) == Some(p1));
    let p2 = record_chain(s, i, 2)->Some_0;
    let p3 = record_chain(s, i, 3)->Some_0;
    assert(s.subrange(i, e) =~= s.subrange(i, p0) + s.subrange(p0, p1) + s.subrange(p1, p2)
        + s.subrange(p2, p3) + s.subrange(p3, e));
}

/// The by-parts walker over one record's fields.
pub struct RecordParts<'a> {
    bytes: Bytes<'a>,
    buf: Vec<u8>,
    state: usize,
    has1: bool,
    has2: bool,
    start: Ghost<int>,
}

impl<'a> RecordParts<'a> {
    pub closed spec fn data(&self) -> Seq<u8> {
        self.bytes.data()
    }

    pub closed spec fn pos(&self) -> int {
        self.bytes.pos()
    }

    pub closed spec fn state_idx(&self) -> int {
        self.state as int
    }

    pub closed spec fn start_pos(&self) -> int {
        self.start@
    }

    pub closed spec fn spec_has1(&self) -> bool {
        self.has1
    }

    pub closed spec fn spec_has2(&self) -> bool {
        self.has2
    }

    /// The walker sits at the position the chain reaches after the items
    /// it has yielded, with the presence bits loaded once the first item
    /// is out.
    pub closed spec fn wf(&self) -> bool {
        &&& self.bytes.wf()
        &&& 0 <= self.start_pos() <= self.pos()
        &&& 0 <= self.state_idx() <= 5
        &&& self.state_idx() == 0 ==> self.pos() == self.start_pos()
        &&& 1 <= self.state_idx() <= 4 ==> {
            &&& record_chain(self.data(), self.start_pos(), self.state_idx()) == Some(self.pos())
            &&& bool_dec_n(self.data(), self.start_pos(), 2) matches Some((bits, _))
                && bits[0] == self.spec_has1() && bits[1] == self.spec_has2()
        }
    }

    /// Start walking a record's fields at the cursor's position.
    pub fn new(bytes: Bytes<'a>) -> (r: RecordParts<'a>)
        requires
            bytes.wf(),
        ensures
            r.wf(),
            r.data() == bytes.data(),
            r.start_pos() == bytes.pos(),
            r.state_idx() == 0,
    {
        let ghost start = bytes.pos();
        RecordParts { bytes, buf: Vec::new(), state: 0, has1: false, has2: false, start: Ghost(start) }
    }

    /// The next field's window. The first failure yields one error item
    /// and ends the walk; after the last field the walk yields nothing.
    pub fn next(&mut self) -> (r: Option<Result<RecordPart<'a>, DecodingError>>)
        requires
            old(self).wf(),
        ensures
            final(self).wf(),
            final(self).data() == old(self).data(),
            final(self).start_pos() == old(self).start_pos(),
            old(self).state_idx() >= 4 ==> r is None && final(self).pos() == old(self).pos(),
            old(self).state_idx() < 4 ==> match r {
                Some(Ok(part)) => {
                    &&& final(self).state_idx() == old(self).state_idx() + 1
                    &&& record_chain(final(self).data(), final(self).start_pos(), final(self).state_idx())
                        == Some(final(self).pos())
                    &&& match part {
                        RecordPart::StringField(w) => old(self).state_idx() == 0 && w.bytes()
                            == final(self).data().subrange(
                            old(self).start_pos() + 1,
                            final(self).pos(),
                        ) && w.offset() == old(self).start_pos() + 1,
                        RecordPart::Optional1(ow) => old(self).state_idx() == 1 && (match ow {
                            Some(w) => final(self).spec_has1() && w.bytes() == final(self).data().subrange(old(self).pos(), final(self).pos()) && w.offset()
                                == old(self).pos(),
                            None => !final(self).spec_has1() && final(self).pos() == old(self).pos(),
                        }),
                        RecordPart::Generic(w) => old(self).state_idx() == 2 && w.bytes() == final(self).data().subrange(old(self).pos(), final(self).pos()) && w.offset() == old(self).pos(),
                        RecordPart::Optional2(ow) => old(self).state_idx() == 3 && (match ow {
                            Some(w) => final(self).spec_has2() && w.bytes() == final(self).data().subrange(old(self).pos(), final(self).pos()) && w.offset()
                                == old(self).pos(),
                            None => !final(self).spec_has2() && final(self).pos() == old(self).pos(),
                        }),
                    }
                },
                Some(Err(_)) => {
                    &&& final(self).state_idx() == 5
                    &&& record_chain(
                        final(self).data(),
                        final(self).start_pos(),
                        old(self).state_idx() + 1,
                    ) is None
                },
                None => false,
            },
    {
        if self.state == 0 {
            let mut presence: Vec<bool> = Vec::new();
            match boolean::decode_many(&mut self.bytes, 2, &mut presence) {
                Ok(()) => {},
                Err(e) => {
                    self.state = 5;
                    return Some(Err(e));
                },
            }
            self.has1 = presence[0];
            self.has2 = presence[1];
            match String::recognize(&mut self.bytes, &mut self.buf) {
                Ok(w) => {
                    self.state = 1;
                    Some(Ok(RecordPart::StringField(w)))
                },
                Err(e) => {
                    self.state = 5;
                    Some(Err(e))
                },
            }
        } else if self.state == 1 {
            if self.has1 {
                match Uint::recognize(&mut self.bytes, &mut self.buf) {
                    Ok(w) => {
                        self.state = 2;
                        Some(Ok(RecordPart::Optional1(Some(w))))
                    },
                    Err(e) => {
                        self.state = 5;
                        Some(Err(e))
                    },
                }
            } else {
                self.state = 2;
                Some(Ok(RecordPart::Optional1(None)))
            }
        } else if self.state == 2 {
            match <Vec<bool>>::recognize(&mut self.bytes, &mut self.buf) {
                Ok(w) => {
                    self.state = 3;
                    Some(Ok(RecordPart::Generic(w)))
                },
                Err(e) => {
                    self.state = 5;
                    Some(Err(e))
                },
            }
        } else if self.state == 3 {
            if self.has2 {
                match Uint::recognize(&mut self.bytes, &mut self.buf) {
                    Ok(w) => {
                        self.state = 4;
                        Some(Ok(RecordPart::Optional2(Some(w))))
                    },
                    Err(e) => {
                        self.state = 5;
                        Some(Err(e))
                    },
                }
            } else {
                self.state = 4;
                Some(Ok(RecordPart::Optional2(None)))
            }
        } else {
            None
        }
    }
}

impl Record {
    /// Walk a record's fields as recognized windows, field by field.
    pub fn recognize_by_parts<'a>(bytes: Bytes<'a>) -> (r: RecordParts<'a>)
        requires
            bytes.wf(),
        ensures
            r.wf(),
            r.data() == bytes.data(),
            r.start_pos() == bytes.pos(),
            r.state_idx() == 0,
    {
        RecordParts::new(bytes)
    }
}

} // verus!

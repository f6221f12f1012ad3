//! The composite codecs: length-prefixed vectors and open-ended streams.

use core::marker::PhantomData;
use vstd::prelude::*;

use crate::base::uint::{self, lemma_uint_wire_dec, uint_dec, uint_wire};
use crate::bytes::{ByteSlice, Bytes};
use crate::errors::{eof, invalid_prefix, DecodingError};
use crate::traits::{
    dec_iter, dec_iter_err, lemma_dec_iter_frame, lemma_dec_iter_in_range, lemma_iter_wire_dec,
    lemma_rec_iter_covers, rec_iter, rec_iter_err, views_of, wire_iter, Decodable, Encodable,
    WireDecode, WireEncode,
};

verus! {

/// The wire bytes of a vector: its item count as an unsigned varint, then
/// the items' bulk encoding.
pub open spec fn vec_wire<T: Encodable>(values: Seq<T>) -> Seq<u8> {
    uint_wire(values.len() as u64) + T::wire_n(values)
}

/// Decoding a vector from `s` at `i`.
pub open spec fn vec_dec<T: Decodable>(s: Seq<u8>, i: int) -> Option<(Seq<T::V>, int)> {
    match uint_dec(s, i) {
        None => None,
        Some((len, j)) => {
            if len <= usize::MAX {
                T::dec_n(s, j, len as nat)
            } else {
                None
            }
        },
    }
}

/// Which error a failed vector decode reports: an unexpected end of
/// input inside the count or for a count no buffer can hold, or the
/// failing item's own error.
pub open spec fn vec_dec_err<T: Decodable>(s: Seq<u8>, i: int) -> DecodingError {
    match uint_dec(s, i) {
        None => eof(i),
        Some((len, j)) => {
            if len <= usize::MAX {
                T::dec_n_err(s, j, len as nat)
            } else {
                eof(j)
            }
        },
    }
}

/// Recognizing a vector from `s` at `i`.
pub open spec fn vec_rec<T: Decodable>(s: Seq<u8>, i: int) -> Option<int> {
    match uint_dec(s, i) {
        None => None,
        Some((len, j)) => {
            if len <= usize::MAX {
                T::rec_n(s, j, len as nat)
            } else {
                None
            }
        },
    }
}

/// Which error a failed vector recognition reports.
pub open spec fn vec_rec_err<T: Decodable>(s: Seq<u8>, i: int) -> DecodingError {
    match uint_dec(s, i) {
        None => eof(i),
        Some((len, j)) => {
            if len <= usize::MAX {
                T::rec_n_err(s, j, len as nat)
            } else {
                eof(j)
            }
        },
    }
}

/// The varint count of a composite decodes the same inside a copied
/// window that covers the whole composite.
pub proof fn lemma_uint_dec_frame_window(s: Seq<u8>, i: int, t: Seq<u8>, k: int, e: int)
    requires
        0 <= i <= s.len(),
        0 <= k,
        uint_dec(s, i) is Some,
        uint_dec(s, i)->Some_0.1 <= e <= s.len(),
        k + (e - i) <= t.len(),
        t.subrange(k, k + (e - i)) == s.subrange(i, e),
    ensures
        uint_dec(t, k) == Some((uint_dec(s, i)->Some_0.0, k + (uint_dec(s, i)->Some_0.1 - i))),
{
    let j = uint_dec(s, i)->Some_0.1;
    assert(t.subrange(k, k + (j - i)) =~= s.subrange(i, j)) by {
        let big_t = t.subrange(k, k + (e - i));
        let big_s = s.subrange(i, e);
        assert(big_t =~= big_s);
        assert(t.subrange(k, k + (j - i)) =~= big_t.subrange(0, j - i));
        assert(s.subrange(i, j) =~= big_s.subrange(0, j - i));
    }
    uint::lemma_uint_dec_frame(s, i, t, k);
}

/// A vector travels as a varint item count followed by the items' bulk
/// encoding (packed, for booleans).
impl<T: Encodable> WireEncode for Vec<T> {
    open spec fn wire(&self) -> Seq<u8> {
        vec_wire::<T>(self@)
    }

    open spec fn wf_value(&self) -> bool {
        forall|k: int| 0 <= k < self@.len() ==> (#[trigger] self@[k]).wf_value()
    }

    fn encode(&self, out: &mut Vec<u8>) {
        uint::encode(self.len() as u64, out);
        T::encode_many(self.as_slice(), out);
        assert(final(out)@ =~= old(out)@ + vec_wire::<T>(self@));
    }
}

impl<T: Encodable> Encodable for Vec<T> {
    open spec fn wire_n(values: Seq<Vec<T>>) -> Seq<u8> {
        wire_iter(values)
    }

    fn encode_many(values: &[Vec<T>], out: &mut Vec<u8>) {
        crate::traits::encode_each(values, out);
    }
}

impl<T: Decodable> WireDecode for Vec<T> {
    open spec fn dec(s: Seq<u8>, i: int) -> Option<(Seq<T::V>, int)> {
        vec_dec::<T>(s, i)
    }

    open spec fn dec_err(s: Seq<u8>, i: int) -> DecodingError {
        vec_dec_err::<T>(s, i)
    }

    open spec fn rec(s: Seq<u8>, i: int) -> Option<int> {
        vec_rec::<T>(s, i)
    }

    open spec fn rec_err(s: Seq<u8>, i: int) -> DecodingError {
        vec_rec_err::<T>(s, i)
    }

    open spec fn rt() -> bool {
        T::rt()
    }

    open spec fn rec_exact() -> bool {
        T::rec_exact()
    }

    open spec fn dec_progress() -> bool {
        true
    }

    fn decode(bytes: &mut Bytes<'_>, buf: &mut Vec<u8>) -> Result<Vec<T>, DecodingError> {
        let len = match uint::decode(bytes) {
            Ok(l) => l,
            Err(e) => {
                return Err(e);
            },
        };
        if len > usize::MAX as u64 {
            return Err(DecodingError::eof_at(bytes.mark().to_usize()));
        }
        let mut values: Vec<T> = Vec::new();
        match T::decode_many(bytes, buf, len as usize, &mut values) {
            Ok(()) => {
                proof {
                    assert(values.deep_view().skip(0) =~= values.deep_view());
                }
                Ok(values)
            },
            Err(e) => Err(e),
        }
    }

    fn recognize<'a>(bytes: &mut Bytes<'a>, buf: &mut Vec<u8>) -> Result<
        ByteSlice<'a, Vec<T>>,
        DecodingError,
    > {
        let mark = bytes.mark();
        let len = match uint::decode(bytes) {
            Ok(l) => l,
            Err(e) => {
                return Err(e);
            },
        };
        if len > usize::MAX as u64 {
            return Err(DecodingError::eof_at(bytes.mark().to_usize()));
        }
        match T::recognize_many(bytes, buf, len as usize) {
            Ok(_) => Ok(bytes.take_slice_from(mark)),
            Err(e) => Err(e),
        }
    }

    proof fn lemma_dec_in_range(s: Seq<u8>, i: int) {
        let (len, j) = uint_dec(s, i)->Some_0;
        T::lemma_dec_n_in_range(s, j, len as nat);
    }

    proof fn lemma_dec_progress(s: Seq<u8>, i: int) {
        let (len, j) = uint_dec(s, i)->Some_0;
        T::lemma_dec_n_in_range(s, j, len as nat);
    }

    proof fn lemma_wire_dec(&self, s: Seq<u8>, i: int) {
        assert(self@.len() == vstd::std_specs::vec::spec_vec_len(self));
        let lw = uint_wire(self@.len() as u64);
        let body = T::wire_n(self@);
        let w = vec_wire::<T>(self@);
        assert(s.subrange(i, i + lw.len() as int) =~= w.subrange(0, lw.len() as int));
        assert(w.subrange(0, lw.len() as int) =~= lw);
        lemma_uint_wire_dec(self@.len() as u64, s, i);
        let j = i + lw.len() as int;
        assert(s.subrange(j, j + body.len() as int) =~= w.subrange(
            lw.len() as int,
            w.len() as int,
        ));
        assert(w.subrange(lw.len() as int, w.len() as int) =~= body);
        T::lemma_wire_dec_n(self@, s, j);
        assert(self.deep_view() =~= views_of(self@));
    }

    proof fn lemma_rec_covers(s: Seq<u8>, i: int) {
        match uint_dec(s, i) {
            Some((len, j)) => {
                if len <= usize::MAX {
                    T::lemma_rec_covers_n(s, j, len as nat);
                }
            },
            None => {},
        }
    }

    proof fn lemma_dec_frame(s: Seq<u8>, i: int, t: Seq<u8>, k: int) {
        let (len, j) = uint_dec(s, i)->Some_0;
        let e = vec_dec::<T>(s, i)->Some_0.1;
        T::lemma_dec_n_in_range(s, j, len as nat);
        lemma_uint_dec_frame_window(s, i, t, k, e);
        let k1 = k + (j - i);
        assert(t.subrange(k1, k1 + (e - j)) =~= s.subrange(j, e)) by {
            let big_t = t.subrange(k, k + (e - i));
            let big_s = s.subrange(i, e);
            assert(big_t =~= big_s);
            assert(t.subrange(k1, k1 + (e - j)) =~= big_t.subrange(j - i, e - i));
            assert(s.subrange(j, e) =~= big_s.subrange(j - i, e - i));
        }
        T::lemma_dec_n_frame(s, j, t, k1, len as nat);
    }
}

impl<T: Decodable> Decodable for Vec<T> {
    open spec fn dec_n(s: Seq<u8>, i: int, n: nat) -> Option<(Seq<Seq<T::V>>, int)> {
        dec_iter::<Vec<T>>(s, i, n)
    }

    open spec fn dec_n_err(s: Seq<u8>, i: int, n: nat) -> DecodingError {
        dec_iter_err::<Vec<T>>(s, i, n)
    }

    open spec fn rec_n(s: Seq<u8>, i: int, n: nat) -> Option<int> {
        rec_iter::<Vec<T>>(s, i, n)
    }

    open spec fn rec_n_err(s: Seq<u8>, i: int, n: nat) -> DecodingError {
        rec_iter_err::<Vec<T>>(s, i, n)
    }

    fn decode_many(
        bytes: &mut Bytes<'_>,
        buf: &mut Vec<u8>,
        n: usize,
        values: &mut Vec<Vec<T>>,
    ) -> Result<(), DecodingError> {
        crate::traits::decode_each(bytes, buf, n, values)
    }

    fn recognize_many<'a>(bytes: &mut Bytes<'a>, buf: &mut Vec<u8>, n: usize) -> Result<
        ByteSlice<'a, Vec<T>>,
        DecodingError,
    > {
        crate::traits::recognize_each(bytes, buf, n)
    }

    proof fn lemma_wire_dec_n(values: Seq<Vec<T>>, s: Seq<u8>, i: int) {
        lemma_iter_wire_dec::<Vec<T>>(values, s, i);
    }

    proof fn lemma_dec_n_in_range(s: Seq<u8>, i: int, n: nat) {
        lemma_dec_iter_in_range::<Vec<T>>(s, i, n);
    }

    proof fn lemma_dec_n_frame(s: Seq<u8>, i: int, t: Seq<u8>, k: int, n: nat) {
        lemma_dec_iter_frame::<Vec<T>>(s, i, t, k, n);
    }

    proof fn lemma_rec_covers_n(s: Seq<u8>, i: int, n: nat) {
        lemma_rec_iter_covers::<Vec<T>>(s, i, n);
    }
}

/// An open-ended sequence of values appended after the struct that owns
/// the stream field. At rest a stream is only an origin offset: it
/// encodes to nothing, and decoding one captures the cursor's position
/// and runs to the end of the buffer.
#[derive(Debug)]
pub struct Stream<T> {
    offset: usize,
    ty: PhantomData<T>,
}

impl<T> Stream<T> {
    pub closed spec fn offset(&self) -> int {
        self.offset as int
    }

    /// A stream handle at a known origin offset.
    pub fn with_offset(offset: usize) -> (r: Self)
        ensures
            r.offset() == offset,
    {
        Stream { offset, ty: PhantomData }
    }
}

impl<T> DeepView for Stream<T> {
    type V = int;

    open spec fn deep_view(&self) -> int {
        self.offset()
    }
}

impl<T> WireEncode for Stream<T> {
    open spec fn wire(&self) -> Seq<u8> {
        Seq::empty()
    }

    open spec fn wf_value(&self) -> bool {
        true
    }

    fn encode(&self, _out: &mut Vec<u8>) {
        assert(final(_out)@ =~= old(_out)@ + Seq::<u8>::empty());
    }
}

impl<T> Encodable for Stream<T> {
    open spec fn wire_n(values: Seq<Stream<T>>) -> Seq<u8> {
        wire_iter(values)
    }

    fn encode_many(values: &[Stream<T>], out: &mut Vec<u8>) {
        crate::traits::encode_each(values, out);
    }
}

/// Decoding a stream captures the cursor position and consumes the rest
/// of the buffer.
pub open spec fn stream_dec(s: Seq<u8>, i: int) -> Option<(int, int)> {
    if 0 <= i <= s.len() {
        Some((i, s.len() as int))
    } else {
        None
    }
}

impl<T> WireDecode for Stream<T> {
    open spec fn dec(s: Seq<u8>, i: int) -> Option<(int, int)> {
        stream_dec(s, i)
    }

    open spec fn dec_err(s: Seq<u8>, i: int) -> DecodingError {
        eof(i)
    }

    open spec fn rec(s: Seq<u8>, i: int) -> Option<int> {
        match stream_dec(s, i) {
            Some((_, j)) => Some(j),
            None => None,
        }
    }

    open spec fn rec_err(s: Seq<u8>, i: int) -> DecodingError {
        eof(i)
    }

    open spec fn rt() -> bool {
        false
    }

    open spec fn rec_exact() -> bool {
        true
    }

    open spec fn dec_progress() -> bool {
        false
    }

    fn decode(bytes: &mut Bytes<'_>, _buf: &mut Vec<u8>) -> Result<Stream<T>, DecodingError> {
        let offset = bytes.mark().to_usize();
        let rest = bytes.remaining_len();
        bytes.consume(rest);
        Ok(Stream { offset, ty: PhantomData })
    }

    fn recognize<'a>(bytes: &mut Bytes<'a>, _buf: &mut Vec<u8>) -> Result<
        ByteSlice<'a, Stream<T>>,
        DecodingError,
    > {
        let rest = bytes.remaining_len();
        match bytes.consume_slice(rest) {
            Some(w) => Ok(w),
            None => {
                proof {
                    assert(false);
                }
                Err(DecodingError::eof_at(bytes.mark().to_usize()))
            },
        }
    }

    proof fn lemma_dec_in_range(s: Seq<u8>, i: int) {
    }

    proof fn lemma_dec_progress(s: Seq<u8>, i: int) {
    }

    proof fn lemma_wire_dec(&self, s: Seq<u8>, i: int) {
    }

    proof fn lemma_rec_covers(s: Seq<u8>, i: int) {
    }

    proof fn lemma_dec_frame(s: Seq<u8>, i: int, t: Seq<u8>, k: int) {
    }
}

impl<T> Decodable for Stream<T> {
    open spec fn dec_n(s: Seq<u8>, i: int, n: nat) -> Option<(Seq<int>, int)> {
        dec_iter::<Stream<T>>(s, i, n)
    }

    open spec fn dec_n_err(s: Seq<u8>, i: int, n: nat) -> DecodingError {
        dec_iter_err::<Stream<T>>(s, i, n)
    }

    open spec fn rec_n(s: Seq<u8>, i: int, n: nat) -> Option<int> {
        rec_iter::<Stream<T>>(s, i, n)
    }

    open spec fn rec_n_err(s: Seq<u8>, i: int, n: nat) -> DecodingError {
        rec_iter_err::<Stream<T>>(s, i, n)
    }

    fn decode_many(
        bytes: &mut Bytes<'_>,
        buf: &mut Vec<u8>,
        n: usize,
        values: &mut Vec<Stream<T>>,
    ) -> Result<(), DecodingError> {
        crate::traits::decode_each(bytes, buf, n, values)
    }

    fn recognize_many<'a>(bytes: &mut Bytes<'a>, buf: &mut Vec<u8>, n: usize) -> Result<
        ByteSlice<'a, Stream<T>>,
        DecodingError,
    > {
        crate::traits::recognize_each(bytes, buf, n)
    }

    proof fn lemma_wire_dec_n(values: Seq<Stream<T>>, s: Seq<u8>, i: int) {
    }

    proof fn lemma_dec_n_in_range(s: Seq<u8>, i: int, n: nat) {
        lemma_dec_iter_in_range::<Stream<T>>(s, i, n);
    }

    proof fn lemma_dec_n_frame(s: Seq<u8>, i: int, t: Seq<u8>, k: int, n: nat) {
    }

    proof fn lemma_rec_covers_n(s: Seq<u8>, i: int, n: nat) {
        lemma_rec_iter_covers::<Stream<T>>(s, i, n);
    }
}

/// The values appended one after another from position `i` to the end of
/// the buffer, or `None` when they do not parse cleanly to the end.
pub open spec fn stream_items<T: WireDecode>(s: Seq<u8>, i: int) -> Option<Seq<T::V>>
    decreases s.len() - i,
    when 0 <= i <= s.len()
{
    if i == s.len() {
        Some(Seq::empty())
    } else {
        match T::dec(s, i) {
            None => None,
            Some((v, j)) => {
                if i < j <= s.len() {
                    match stream_items::<T>(s, j) {
                        None => None,
                        Some(vs) => Some(seq![v] + vs),
                    }
                } else {
                    None
                }
            },
        }
    }
}

/// Which error a failed stream traversal reports: the first failing
/// item's own error.
pub open spec fn stream_items_err<T: WireDecode>(s: Seq<u8>, i: int) -> DecodingError
    decreases s.len() - i,
    when 0 <= i <= s.len()
{
    if i == s.len() {
        eof(i)
    } else {
        match T::dec(s, i) {
            None => T::dec_err(s, i),
            Some((_, j)) => {
                if i < j <= s.len() {
                    stream_items_err::<T>(s, j)
                } else {
                    eof(i)
                }
            },
        }
    }
}

impl<T: WireEncode> Stream<T> {
    /// Append one item to the stream's tail: items travel outside the
    /// owning struct's own encoding.
    pub fn push_encode(value: &T, out: &mut Vec<u8>)
        ensures
            final(out)@ == old(out)@ + value.wire(),
    {
        value.encode(out);
    }
}

impl<T: WireDecode> Stream<T> {
    /// Walk the stream's items as recognized windows.
    pub fn iter<'a>(&self, origin: &'a [u8]) -> (r: StreamIter<'a, T>)
        requires
            self.offset() <= origin@.len(),
        ensures
            r.wf(),
            r.data() == origin@,
            r.pos() == self.offset(),
    {
        let mut bytes = Bytes::new(origin);
        proof {
            assert(origin@.len() == vstd::slice::spec_slice_len(origin));
        }
        bytes.consume(self.offset);
        StreamIter { bytes, buf: Vec::new(), ty: PhantomData }
    }

    /// Decode every item from the stream's origin offset to the end of
    /// the buffer.
    pub fn collect(&self, origin: &[u8]) -> (r: Result<Vec<T>, DecodingError>)
        requires
            self.offset() <= origin@.len(),
            T::dec_progress(),
        ensures
            match r {
                Ok(vs) => stream_items::<T>(origin@, self.offset()) == Some(vs.deep_view()),
                Err(e) => stream_items::<T>(origin@, self.offset()) is None && e
                    == stream_items_err::<T>(origin@, self.offset()),
            },
    {
        let ghost s = origin@;
        let ghost i0 = self.offset() as int;
        let mut bytes = Bytes::new(origin);
        proof {
            assert(origin@.len() == vstd::slice::spec_slice_len(origin));
        }
        bytes.consume(self.offset);
        let mut buf: Vec<u8> = Vec::new();
        let mut values: Vec<T> = Vec::new();
        while !bytes.is_empty()
            invariant
                s == origin@,
                i0 == self.offset(),
                bytes.wf(),
                bytes.data() == s,
                0 <= i0 <= bytes.pos() <= s.len(),
                T::dec_progress(),
                stream_items::<T>(s, i0) == (match stream_items::<T>(s, bytes.pos()) {
                    None => None::<Seq<T::V>>,
                    Some(vs) => Some(values.deep_view() + vs),
                }),
                stream_items::<T>(s, i0) is None ==> stream_items_err::<T>(s, i0)
                    == stream_items_err::<T>(s, bytes.pos()),
            decreases s.len() - bytes.pos(),
        {
            let ghost pos0 = bytes.pos();
            let ghost vals0 = values.deep_view();
            match T::decode(&mut bytes, &mut buf) {
                Ok(v) => {
                    proof {
                        T::lemma_dec_progress(s, pos0);
                    }
                    let ghost vv = v.deep_view();
                    values.push(v);
                    proof {
                        assert(values.deep_view() =~= vals0.push(vv));
                        assert forall|vs: Seq<T::V>| true implies #[trigger] (values.deep_view()
                            + vs) =~= vals0 + (seq![vv] + vs) by {}
                        assert(stream_items::<T>(s, pos0) == (match stream_items::<T>(
                            s,
                            bytes.pos(),
                        ) {
                            None => None::<Seq<T::V>>,
                            Some(vs) => Some(seq![vv] + vs),
                        }));
                        if stream_items::<T>(s, i0) is None {
                            assert(stream_items_err::<T>(s, pos0) == stream_items_err::<T>(
                                s,
                                bytes.pos(),
                            ));
                        }
                    }
                },
                Err(e) => {
                    proof {
                        assert(stream_items::<T>(s, pos0) is None);
                        assert(stream_items_err::<T>(s, pos0) == T::dec_err(s, pos0));
                    }
                    return Err(e);
                },
            }
        }
        proof {
            assert(values.deep_view() + Seq::<T::V>::empty() =~= values.deep_view());
        }
        Ok(values)
    }
}

/// A walker over a stream's items, yielding one recognized window per
/// item until the buffer ends.
#[derive(Debug)]
pub struct StreamIter<'a, T> {
    bytes: Bytes<'a>,
    buf: Vec<u8>,
    ty: PhantomData<T>,
}

impl<'a, T: WireDecode> StreamIter<'a, T> {
    pub closed spec fn data(&self) -> Seq<u8> {
        self.bytes.data()
    }

    pub closed spec fn pos(&self) -> int {
        self.bytes.pos()
    }

    pub open spec fn wf(&self) -> bool {
        0 <= self.pos() <= self.data().len() <= usize::MAX
    }

    /// The next item's window: `None` at the end of the buffer, and the
    /// recognition outcome otherwise.
    pub fn next(&mut self) -> (r: Option<Result<ByteSlice<'a, T>, DecodingError>>)
        requires
            old(self).wf(),
        ensures
            final(self).wf(),
            final(self).data() == old(self).data(),
            r is None <==> old(self).pos() == old(self).data().len(),
            match r {
                None => final(self).pos() == old(self).pos(),
                Some(Ok(w)) => {
                    &&& T::rec(old(self).data(), old(self).pos()) == Some(final(self).pos())
                    &&& w.bytes() == old(self).data().subrange(old(self).pos(), final(self).pos())
                    &&& w.offset() == old(self).pos()
                },
                Some(Err(e)) => {
                    &&& T::rec(old(self).data(), old(self).pos()) is None
                    &&& e == T::rec_err(old(self).data(), old(self).pos())
                },
            },
    {
        if self.bytes.is_empty() {
            return None;
        }
        Some(T::recognize(&mut self.bytes, &mut self.buf))
    }
}

/// Stream handles compare by their origin offset.
impl<T> PartialEq for Stream<T> {
    fn eq(&self, other: &Self) -> (r: bool) {
        self.offset == other.offset
    }
}

impl<T> vstd::std_specs::cmp::PartialEqSpecImpl for Stream<T> {
    open spec fn obeys_eq_spec() -> bool {
        true
    }

    open spec fn eq_spec(&self, other: &Self) -> bool {
        self.offset() == other.offset()
    }
}

impl<T> Eq for Stream<T> {

}

} // verus!

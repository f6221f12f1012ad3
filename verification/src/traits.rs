//! The codec protocol that every wire type implements: encoding against a
//! byte sink, full decoding, and recognition (type-checked skipping that
//! yields a typed byte window).
//!
//! Each implementation carries its own wire model: `wire` gives the exact
//! bytes a value encodes to, `dec` gives the value (as its abstract view)
//! and end position a decode at a given position yields, and `rec` gives
//! the end position recognition reaches. Recognition accepts everything
//! decoding accepts; for every type but strings the two agree exactly
//! (recognition of a string skips the UTF-8 validation).

use vstd::prelude::*;

use crate::bytes::{ByteSlice, ByteSpan, Bytes};
use crate::errors::DecodingError;

verus! {

/// A type whose single values encode to bytes.
pub trait WireEncode: Sized {
    /// The exact bytes `self` encodes to.
    spec fn wire(&self) -> Seq<u8>;

    /// Internal consistency of the value itself (for flag sets: the bitmap
    /// length matches the flag count). Decoders only produce, and the
    /// round-trip laws only speak about, consistent values.
    spec fn wf_value(&self) -> bool;

    /// Append the encoding of `self` to `out`.
    fn encode(&self, out: &mut Vec<u8>)
        ensures
            final(out)@ == old(out)@ + self.wire(),
    ;
}

/// A type whose runs of values encode to bytes.
pub trait Encodable: WireEncode {
    /// The exact bytes a whole run of values encodes to. For most types
    /// this is the concatenation of the elements' encodings; booleans
    /// pack a run into a bitmap instead.
    spec fn wire_n(values: Seq<Self>) -> Seq<u8>;

    /// Append the encoding of a whole run of values to `out`.
    fn encode_many(values: &[Self], out: &mut Vec<u8>)
        ensures
            final(out)@ == old(out)@ + Self::wire_n(values@),
    ;
}

/// A type whose single values decode from bytes.
pub trait WireDecode: WireEncode + DeepView {
    /// Decoding one value from `s` at `i`: its abstract view and the
    /// position after it, or `None` when the bytes are not a value.
    spec fn dec(s: Seq<u8>, i: int) -> Option<(Self::V, int)>;

    /// The error decoding reports when `dec` is `None`.
    spec fn dec_err(s: Seq<u8>, i: int) -> DecodingError;

    /// Recognizing one value from `s` at `i`: the position after it.
    spec fn rec(s: Seq<u8>, i: int) -> Option<int>;

    /// The error recognition reports when `rec` is `None`.
    spec fn rec_err(s: Seq<u8>, i: int) -> DecodingError;

    /// Whether decoding the encoding of a value always yields the value
    /// back. It does for every wire type except streams, which encode to
    /// nothing and decode to wherever the cursor stands.
    spec fn rt() -> bool;

    /// Whether recognition accepts exactly what decoding accepts. It does
    /// for every wire type except strings, where recognition skips the
    /// UTF-8 validation.
    spec fn rec_exact() -> bool;

    /// Decode one value at the cursor. On success the cursor moves to the
    /// end of the value; on failure the data is unchanged and the cursor
    /// is wherever the failure left it.
    fn decode(bytes: &mut Bytes<'_>, buf: &mut Vec<u8>) -> (r: Result<Self, DecodingError>)
        requires
            old(bytes).wf(),
        ensures
            final(bytes).wf(),
            final(bytes).data() == old(bytes).data(),
            old(bytes).pos() <= final(bytes).pos(),
            match r {
                Ok(v) => Self::dec(old(bytes).data(), old(bytes).pos()) == Some(
                    (v.deep_view(), final(bytes).pos()),
                ) && v.wf_value(),
                Err(e) => {
                    &&& Self::dec(old(bytes).data(), old(bytes).pos()) is None
                    &&& e == Self::dec_err(old(bytes).data(), old(bytes).pos())
                },
            },
    ;

    /// Recognize one value at the cursor: advance exactly as `decode`
    /// would (up to UTF-8 validation) and yield the consumed window.
    fn recognize<'a>(bytes: &mut Bytes<'a>, buf: &mut Vec<u8>) -> (r: Result<
        ByteSlice<'a, Self>,
        DecodingError,
    >)
        requires
            old(bytes).wf(),
        ensures
            final(bytes).wf(),
            final(bytes).data() == old(bytes).data(),
            old(bytes).pos() <= final(bytes).pos(),
            match r {
                Ok(w) => {
                    &&& Self::rec(old(bytes).data(), old(bytes).pos()) == Some(
                        final(bytes).pos(),
                    )
                    &&& w.bytes() == old(bytes).data().subrange(
                        old(bytes).pos(),
                        final(bytes).pos(),
                    )
                    &&& w.offset() == old(bytes).pos()
                },
                Err(e) => {
                    &&& Self::rec(old(bytes).data(), old(bytes).pos()) is None
                    &&& e == Self::rec_err(old(bytes).data(), old(bytes).pos())
                },
            },
    ;

    /// Round-trip: decoding right after encoding yields the value back,
    /// wherever the encoding sits in a larger buffer.
    proof fn lemma_wire_dec(&self, s: Seq<u8>, i: int)
        requires
            Self::rt(),
            self.wf_value(),
            0 <= i,
            i + self.wire().len() <= s.len(),
            s.subrange(i, i + self.wire().len() as int) == self.wire(),
        ensures
            Self::dec(s, i) == Some((self.deep_view(), i + self.wire().len() as int)),
    ;

    /// Recognition accepts whatever decoding accepts, ends at the same
    /// position, and (for exact types) accepts nothing more.
    proof fn lemma_rec_covers(s: Seq<u8>, i: int)
        ensures
            Self::dec(s, i) matches Some((_, j)) ==> Self::rec(s, i) == Some(j),
            Self::rec_exact() && Self::rec(s, i) is Some ==> Self::dec(s, i) is Some
                && Self::dec(s, i)->Some_0.1 == Self::rec(s, i)->Some_0,
            Self::rec_exact() && Self::rec(s, i) is None ==> Self::dec(s, i) is None
                && Self::rec_err(s, i) == Self::dec_err(s, i),
    ;

    /// Whether a successful decode always consumes at least one byte. It
    /// does for every wire type except a zero-flag exhaustive flag set,
    /// whose bitmap is empty.
    spec fn dec_progress() -> bool;

    /// A successful decode stays within the buffer.
    proof fn lemma_dec_in_range(s: Seq<u8>, i: int)
        requires
            0 <= i <= s.len(),
            Self::dec(s, i) is Some,
        ensures
            i <= Self::dec(s, i)->Some_0.1 <= s.len(),
    ;

    /// A successful decode consumes at least one byte.
    proof fn lemma_dec_progress(s: Seq<u8>, i: int)
        requires
            Self::dec_progress(),
            0 <= i <= s.len(),
            Self::dec(s, i) is Some,
        ensures
            i < Self::dec(s, i)->Some_0.1 <= s.len(),
    ;

    /// A successful decode depends only on the bytes it consumed: the same
    /// bytes at any position of any buffer decode to the same value and
    /// consume the same count. (Streams are the exception: a stream's
    /// view is its absolute offset, so the law is guarded by `rt`.)
    proof fn lemma_dec_frame(s: Seq<u8>, i: int, t: Seq<u8>, k: int)
        requires
            Self::rt(),
            0 <= i <= s.len(),
            0 <= k,
            Self::dec(s, i) is Some,
            k + (Self::dec(s, i)->Some_0.1 - i) <= t.len(),
            t.subrange(k, k + (Self::dec(s, i)->Some_0.1 - i)) == s.subrange(
                i,
                Self::dec(s, i)->Some_0.1,
            ),
        ensures
            Self::dec(t, k) == Some(
                (Self::dec(s, i)->Some_0.0, k + (Self::dec(s, i)->Some_0.1 - i)),
            ),
    ;
}

/// A type whose runs of values decode from bytes.
pub trait Decodable: WireDecode + Encodable {
    /// Decoding a run of `n` values.
    spec fn dec_n(s: Seq<u8>, i: int, n: nat) -> Option<(Seq<Self::V>, int)>;

    /// The error bulk decoding reports when `dec_n` is `None`.
    spec fn dec_n_err(s: Seq<u8>, i: int, n: nat) -> DecodingError;

    /// Recognizing a run of `n` values.
    spec fn rec_n(s: Seq<u8>, i: int, n: nat) -> Option<int>;

    /// The error bulk recognition reports when `rec_n` is `None`.
    spec fn rec_n_err(s: Seq<u8>, i: int, n: nat) -> DecodingError;

    /// Decode a run of `n` values, appending them to `values`. On failure
    /// the values appended before the failure stay.
    fn decode_many(bytes: &mut Bytes<'_>, buf: &mut Vec<u8>, n: usize, values: &mut Vec<Self>) -> (r:
        Result<(), DecodingError>)
        requires
            old(bytes).wf(),
        ensures
            final(bytes).wf(),
            final(bytes).data() == old(bytes).data(),
            old(bytes).pos() <= final(bytes).pos(),
            match r {
                Ok(()) => {
                    &&& Self::dec_n(old(bytes).data(), old(bytes).pos(), n as nat) == Some(
                        (
                            final(values).deep_view().skip(old(values)@.len() as int),
                            final(bytes).pos(),
                        ),
                    )
                    &&& final(values)@.len() == old(values)@.len() + n
                    &&& final(values).deep_view().take(old(values)@.len() as int) == old(values).deep_view()
                    &&& forall|k: int|
                        old(values)@.len() <= k < final(values)@.len() ==> (#[trigger] final(values)@[k]).wf_value()
                },
                Err(e) => {
                    &&& Self::dec_n(old(bytes).data(), old(bytes).pos(), n as nat) is None
                    &&& e == Self::dec_n_err(old(bytes).data(), old(bytes).pos(), n as nat)
                    &&& final(values)@.len() >= old(values)@.len()
                    &&& final(values).deep_view().take(old(values)@.len() as int) == old(values).deep_view()
                },
            },
    ;

    /// Recognize a run of `n` values, yielding the whole consumed window.
    fn recognize_many<'a>(bytes: &mut Bytes<'a>, buf: &mut Vec<u8>, n: usize) -> (r: Result<
        ByteSlice<'a, Self>,
        DecodingError,
    >)
        requires
            old(bytes).wf(),
        ensures
            final(bytes).wf(),
            final(bytes).data() == old(bytes).data(),
            old(bytes).pos() <= final(bytes).pos(),
            match r {
                Ok(w) => {
                    &&& Self::rec_n(old(bytes).data(), old(bytes).pos(), n as nat) == Some(
                        final(bytes).pos(),
                    )
                    &&& w.bytes() == old(bytes).data().subrange(
                        old(bytes).pos(),
                        final(bytes).pos(),
                    )
                    &&& w.offset() == old(bytes).pos()
                },
                Err(e) => {
                    &&& Self::rec_n(old(bytes).data(), old(bytes).pos(), n as nat) is None
                    &&& e == Self::rec_n_err(old(bytes).data(), old(bytes).pos(), n as nat)
                },
            },
    ;


    /// Bulk round-trip: decoding a run right after encoding it yields the
    /// values back.
    proof fn lemma_wire_dec_n(values: Seq<Self>, s: Seq<u8>, i: int)
        requires
            Self::rt(),
            forall|k: int| 0 <= k < values.len() ==> (#[trigger] values[k]).wf_value(),
            0 <= i,
            i + Self::wire_n(values).len() <= s.len(),
            s.subrange(i, i + Self::wire_n(values).len() as int) == Self::wire_n(values),
        ensures
            Self::dec_n(s, i, values.len() as nat) == Some(
                (views_of(values), i + Self::wire_n(values).len() as int),
            ),
    ;

    /// A successful bulk decode stays within the buffer.
    proof fn lemma_dec_n_in_range(s: Seq<u8>, i: int, n: nat)
        requires
            0 <= i <= s.len(),
            Self::dec_n(s, i, n) is Some,
        ensures
            i <= Self::dec_n(s, i, n)->Some_0.1 <= s.len(),
    ;

    /// A successful bulk decode depends only on the bytes it consumed.
    proof fn lemma_dec_n_frame(s: Seq<u8>, i: int, t: Seq<u8>, k: int, n: nat)
        requires
            Self::rt(),
            0 <= i <= s.len(),
            0 <= k,
            Self::dec_n(s, i, n) is Some,
            k + (Self::dec_n(s, i, n)->Some_0.1 - i) <= t.len(),
            t.subrange(k, k + (Self::dec_n(s, i, n)->Some_0.1 - i)) == s.subrange(
                i,
                Self::dec_n(s, i, n)->Some_0.1,
            ),
        ensures
            Self::dec_n(t, k, n) == Some(
                (Self::dec_n(s, i, n)->Some_0.0, k + (Self::dec_n(s, i, n)->Some_0.1 - i)),
            ),
    ;

    /// Bulk recognition accepts whatever bulk decoding accepts, and (for
    /// exact types) nothing more.
    proof fn lemma_rec_covers_n(s: Seq<u8>, i: int, n: nat)
        ensures
            Self::dec_n(s, i, n) matches Some((_, j)) ==> Self::rec_n(s, i, n) == Some(j),
            Self::rec_exact() && Self::rec_n(s, i, n) is Some ==> Self::dec_n(s, i, n) is Some
                && Self::dec_n(s, i, n)->Some_0.1 == Self::rec_n(s, i, n)->Some_0,
            Self::rec_exact() && Self::rec_n(s, i, n) is None ==> Self::dec_n(s, i, n) is None
                && Self::rec_n_err(s, i, n) == Self::dec_n_err(s, i, n),
    ;
}

/// The concatenation of the encodings of a run of values: the bulk wire
/// format of every type that does not pack.
pub open spec fn wire_iter<T: WireEncode>(values: Seq<T>) -> Seq<u8>
    decreases values.len(),
{
    if values.len() == 0 {
        Seq::empty()
    } else {
        values[0].wire() + wire_iter(values.skip(1))
    }
}

/// Decoding `n` values one after another: the bulk decoding of every type
/// that does not pack.
pub open spec fn dec_iter<T: WireDecode>(s: Seq<u8>, i: int, n: nat) -> Option<(Seq<T::V>, int)>
    decreases n,
{
    if n == 0 {
        Some((Seq::empty(), i))
    } else {
        match T::dec(s, i) {
            None => None,
            Some((v, j)) => match dec_iter::<T>(s, j, (n - 1) as nat) {
                None => None,
                Some((vs, k)) => Some((seq![v] + vs, k)),
            },
        }
    }
}

/// Recognizing `n` values one after another.
pub open spec fn rec_iter<T: WireDecode>(s: Seq<u8>, i: int, n: nat) -> Option<int>
    decreases n,
{
    if n == 0 {
        Some(i)
    } else {
        match T::rec(s, i) {
            None => None,
            Some(j) => rec_iter::<T>(s, j, (n - 1) as nat),
        }
    }
}

/// The error a run decode reports: the error of the first failing value.
pub open spec fn dec_iter_err<T: WireDecode>(s: Seq<u8>, i: int, n: nat) -> DecodingError
    decreases n,
{
    if n == 0 {
        crate::errors::eof(i)
    } else {
        match T::dec(s, i) {
            None => T::dec_err(s, i),
            Some((_, j)) => dec_iter_err::<T>(s, j, (n - 1) as nat),
        }
    }
}

/// The error a run recognition reports: the error of the first failing
/// value.
pub open spec fn rec_iter_err<T: WireDecode>(s: Seq<u8>, i: int, n: nat) -> DecodingError
    decreases n,
{
    if n == 0 {
        crate::errors::eof(i)
    } else {
        match T::rec(s, i) {
            None => T::rec_err(s, i),
            Some(j) => rec_iter_err::<T>(s, j, (n - 1) as nat),
        }
    }
}

/// The abstract views of a run of values.
pub open spec fn views_of<T: DeepView>(values: Seq<T>) -> Seq<T::V> {
    Seq::new(values.len(), |k: int| values[k].deep_view())
}

/// Bulk round-trip for every type whose runs are plain concatenations:
/// proved once from the per-value round-trip law.
pub proof fn lemma_iter_wire_dec<T: WireDecode>(values: Seq<T>, s: Seq<u8>, i: int)
    requires
        T::rt(),
        forall|k: int| 0 <= k < values.len() ==> (#[trigger] values[k]).wf_value(),
        0 <= i,
        i + wire_iter(values).len() <= s.len(),
        s.subrange(i, i + wire_iter(values).len() as int) == wire_iter(values),
    ensures
        dec_iter::<T>(s, i, values.len() as nat) == Some(
            (views_of(values), i + wire_iter(values).len() as int),
        ),
    decreases values.len(),
{
    if values.len() == 0 {
        assert(views_of(values) =~= Seq::<T::V>::empty());
    } else {
        let w0 = values[0].wire();
        let rest = wire_iter(values.skip(1));
        let all = wire_iter(values);
        assert(all == w0 + rest);
        assert(s.subrange(i, i + w0.len() as int) =~= all.subrange(0, w0.len() as int));
        assert(all.subrange(0, w0.len() as int) =~= w0);
        values[0].lemma_wire_dec(s, i);
        let j = i + w0.len() as int;
        assert(s.subrange(j, j + rest.len() as int) =~= all.subrange(
            w0.len() as int,
            all.len() as int,
        ));
        assert(all.subrange(w0.len() as int, all.len() as int) =~= rest);
        lemma_iter_wire_dec::<T>(values.skip(1), s, j);
        assert(views_of(values) =~= seq![values[0].deep_view()] + views_of(values.skip(1)));
    }
}

/// A successful iterated decode stays within the buffer.
pub proof fn lemma_dec_iter_in_range<T: WireDecode>(s: Seq<u8>, i: int, n: nat)
    requires
        0 <= i <= s.len(),
        dec_iter::<T>(s, i, n) is Some,
    ensures
        i <= dec_iter::<T>(s, i, n)->Some_0.1 <= s.len(),
    decreases n,
{
    if n > 0 {
        let (_, j) = T::dec(s, i)->Some_0;
        T::lemma_dec_in_range(s, i);
        lemma_dec_iter_in_range::<T>(s, j, (n - 1) as nat);
    }
}

/// A successful iterated decode depends only on the bytes it consumed:
/// proved once from the per-value frame law.
pub proof fn lemma_dec_iter_frame<T: WireDecode>(s: Seq<u8>, i: int, t: Seq<u8>, k: int, n: nat)
    requires
        T::rt(),
        0 <= i <= s.len(),
        0 <= k,
        dec_iter::<T>(s, i, n) is Some,
        k + (dec_iter::<T>(s, i, n)->Some_0.1 - i) <= t.len(),
        t.subrange(k, k + (dec_iter::<T>(s, i, n)->Some_0.1 - i)) == s.subrange(
            i,
            dec_iter::<T>(s, i, n)->Some_0.1,
        ),
    ensures
        dec_iter::<T>(t, k, n) == Some(
            (dec_iter::<T>(s, i, n)->Some_0.0, k + (dec_iter::<T>(s, i, n)->Some_0.1 - i)),
        ),
    decreases n,
{
    lemma_dec_iter_in_range::<T>(s, i, n);
    let e = dec_iter::<T>(s, i, n)->Some_0.1;
    if n == 0 {
    } else {
        let (v0, j0) = T::dec(s, i)->Some_0;
        T::lemma_dec_in_range(s, i);
        lemma_dec_iter_in_range::<T>(s, j0, (n - 1) as nat);
        assert(t.subrange(k, k + (j0 - i)) =~= s.subrange(i, j0)) by {
            let big_t = t.subrange(k, k + (e - i));
            let big_s = s.subrange(i, e);
            assert(big_t =~= big_s);
            assert(t.subrange(k, k + (j0 - i)) =~= big_t.subrange(0, j0 - i));
            assert(s.subrange(i, j0) =~= big_s.subrange(0, j0 - i));
        }
        T::lemma_dec_frame(s, i, t, k);
        let k1 = k + (j0 - i);
        assert(t.subrange(k1, k1 + (e - j0)) =~= s.subrange(j0, e)) by {
            let big_t = t.subrange(k, k + (e - i));
            let big_s = s.subrange(i, e);
            assert(big_t =~= big_s);
            assert(t.subrange(k1, k1 + (e - j0)) =~= big_t.subrange(j0 - i, e - i));
            assert(s.subrange(j0, e) =~= big_s.subrange(j0 - i, e - i));
        }
        lemma_dec_iter_frame::<T>(s, j0, t, k1, (n - 1) as nat);
    }
}

/// Iterated recognition accepts whatever iterated decoding accepts:
/// proved once from the per-value coverage law.
pub proof fn lemma_rec_iter_covers<T: WireDecode>(s: Seq<u8>, i: int, n: nat)
    ensures
        dec_iter::<T>(s, i, n) matches Some((_, j)) ==> rec_iter::<T>(s, i, n) == Some(j),
        T::rec_exact() && rec_iter::<T>(s, i, n) is Some ==> dec_iter::<T>(s, i, n) is Some
            && dec_iter::<T>(s, i, n)->Some_0.1 == rec_iter::<T>(s, i, n)->Some_0,
        T::rec_exact() && rec_iter::<T>(s, i, n) is None ==> dec_iter::<T>(s, i, n) is None
            && rec_iter_err::<T>(s, i, n) == dec_iter_err::<T>(s, i, n),
    decreases n,
{
    if n > 0 {
        T::lemma_rec_covers(s, i);
        match T::dec(s, i) {
            Some((_, j)) => {
                lemma_rec_iter_covers::<T>(s, j, (n - 1) as nat);
            },
            None => {},
        }
        if T::rec_exact() {
            match T::rec(s, i) {
                Some(j) => {
                    lemma_rec_iter_covers::<T>(s, j, (n - 1) as nat);
                },
                None => {},
            }
        }
    }
}

/// Recognition and decoding agree. For any byte buffer and position,
/// recognition succeeds exactly where decoding succeeds (for every wire
/// type whose recognition is exact), both end at the same position, and
/// decoding the recognized window alone yields the same value as decoding
/// in place.
pub proof fn lemma_recognize_matches_decode<T: WireDecode>(s: Seq<u8>, i: int)
    requires
        0 <= i <= s.len(),
    ensures
        T::rec_exact() ==> (T::rec(s, i) is Some <==> T::dec(s, i) is Some),
        T::rec_exact() && T::rec(s, i) is None ==> T::rec_err(s, i) == T::dec_err(s, i),
        T::dec(s, i) matches Some((_, j)) ==> T::rec(s, i) == Some(j),
        (T::rt() && T::dec(s, i) is Some) ==> ({
            let (v, j) = T::dec(s, i)->Some_0;
            j <= s.len() && T::dec(s.subrange(i, j), 0) == Some((v, j - i))
        }),
{
    T::lemma_rec_covers(s, i);
    if T::rt() && T::dec(s, i) is Some {
        T::lemma_dec_in_range(s, i);
        let (v, j) = T::dec(s, i)->Some_0;
        assert(s.subrange(i, j).subrange(0, j - i) =~= s.subrange(i, j));
        T::lemma_dec_frame(s, i, s.subrange(i, j), 0);
    }
}

/// Encode each value in turn: the bulk encoder of every type that does
/// not pack.
pub fn encode_each<T: WireEncode>(values: &[T], out: &mut Vec<u8>)
    ensures
        final(out)@ == old(out)@ + wire_iter(values@),
{
    let n = values.len();
    let mut i: usize = 0;
    proof {
        assert(values@.skip(0) =~= values@);
    }
    while i < n
        invariant
            i <= n,
            n == values@.len(),
            out@ + wire_iter(values@.skip(i as int)) == old(out)@ + wire_iter(values@),
        decreases n - i,
    {
        proof {
            let tail = values@.skip(i as int);
            assert(tail[0] == values@[i as int]);
            assert(tail.skip(1) =~= values@.skip(i + 1));
            assert(wire_iter(tail) == values@[i as int].wire() + wire_iter(values@.skip(i + 1)));
        }
        values[i].encode(out);
        proof {
            assert(out@ + wire_iter(values@.skip(i + 1)) =~= old(out)@ + wire_iter(values@));
        }
        i = i + 1;
    }
    assert(values@.skip(n as int) =~= Seq::<T>::empty());
    assert(out@ =~= out@ + wire_iter(values@.skip(n as int)));
}

/// Decode `n` values one after another, appending them to `values`.
pub fn decode_each<T: WireDecode>(
    bytes: &mut Bytes<'_>,
    buf: &mut Vec<u8>,
    n: usize,
    values: &mut Vec<T>,
) -> (r: Result<(), DecodingError>)
    requires
        old(bytes).wf(),
    ensures
        final(bytes).wf(),
        final(bytes).data() == old(bytes).data(),
        old(bytes).pos() <= final(bytes).pos(),
        match r {
            Ok(()) => dec_iter::<T>(old(bytes).data(), old(bytes).pos(), n as nat) == Some(
                (final(values).deep_view().skip(old(values)@.len() as int), final(bytes).pos()),
            ) && final(values)@.len() == old(values)@.len() + n && final(values).deep_view().take(
                old(values)@.len() as int,
            ) == old(values).deep_view() && (forall|k: int|
                old(values)@.len() <= k < final(values)@.len() ==> (#[trigger] final(values)@[k]).wf_value()),
            Err(e) => {
                &&& dec_iter::<T>(old(bytes).data(), old(bytes).pos(), n as nat) is None
                &&& e == dec_iter_err::<T>(old(bytes).data(), old(bytes).pos(), n as nat)
                &&& final(values)@.len() >= old(values)@.len()
                &&& final(values).deep_view().take(old(values)@.len() as int) == old(values).deep_view()
            },
        },
{
    let ghost s = old(bytes).data();
    let ghost i0 = old(bytes).pos();
    let ghost dv0 = old(values).deep_view();
    let ghost base = old(values)@.len() as int;
    let mut k: usize = 0;
    while k < n
        invariant
            bytes.wf(),
            bytes.data() == s,
            s == old(bytes).data(),
            i0 == old(bytes).pos(),
            i0 <= bytes.pos(),
            k <= n,
            base == dv0.len(),
            base == old(values)@.len(),
            dv0 == old(values).deep_view(),
            values@.len() == base + k,
            values.deep_view().take(base) == dv0,
            forall|x: int| base <= x < values@.len() ==> (#[trigger] values@[x]).wf_value(),
            dec_iter::<T>(s, i0, n as nat) == (match dec_iter::<T>(s, bytes.pos(), (n - k) as nat) {
                None => None::<(Seq<T::V>, int)>,
                Some((vs, j)) => Some((values.deep_view().skip(base) + vs, j)),
            }),
            k < n ==> dec_iter_err::<T>(s, i0, n as nat) == dec_iter_err::<T>(
                s,
                bytes.pos(),
                (n - k) as nat,
            ),
        decreases n - k,
    {
        let ghost vals0 = values.deep_view();
        match T::decode(bytes, buf) {
            Ok(v) => {
                let ghost vv = v.deep_view();
                values.push(v);
                proof {
                    assert(values.deep_view() =~= vals0.push(vv));
                    assert(values.deep_view().take(base) =~= vals0.take(base));
                    assert forall|vs: Seq<T::V>| true implies #[trigger] (values.deep_view().skip(
                        base,
                    ) + vs) =~= vals0.skip(base) + (seq![vv] + vs) by {}
                }
            },
            Err(e) => {
                return Err(e);
            },
        }
        k = k + 1;
    }
    proof {
        assert(values.deep_view().skip(base) + Seq::<T::V>::empty() =~= values.deep_view().skip(
            base,
        ));
    }
    Ok(())
}

/// Recognize `n` values one after another, yielding the whole window.
pub fn recognize_each<'a, T: WireDecode>(bytes: &mut Bytes<'a>, buf: &mut Vec<u8>, n: usize) -> (r:
    Result<ByteSlice<'a, T>, DecodingError>)
    requires
        old(bytes).wf(),
    ensures
        final(bytes).wf(),
        final(bytes).data() == old(bytes).data(),
        old(bytes).pos() <= final(bytes).pos(),
        match r {
            Ok(w) => {
                &&& rec_iter::<T>(old(bytes).data(), old(bytes).pos(), n as nat) == Some(
                    final(bytes).pos(),
                )
                &&& w.bytes() == old(bytes).data().subrange(old(bytes).pos(), final(bytes).pos())
                &&& w.offset() == old(bytes).pos()
            },
            Err(e) => rec_iter::<T>(old(bytes).data(), old(bytes).pos(), n as nat) is None && e
                == rec_iter_err::<T>(old(bytes).data(), old(bytes).pos(), n as nat),
        },
{
    let ghost s = old(bytes).data();
    let ghost i0 = old(bytes).pos();
    let mark = bytes.mark();
    let mut k: usize = 0;
    while k < n
        invariant
            bytes.wf(),
            bytes.data() == s,
            s == old(bytes).data(),
            i0 == old(bytes).pos(),
            i0 <= bytes.pos(),
            mark.pos() == i0,
            k <= n,
            rec_iter::<T>(s, i0, n as nat) == rec_iter::<T>(s, bytes.pos(), (n - k) as nat),
            k < n ==> rec_iter_err::<T>(s, i0, n as nat) == rec_iter_err::<T>(
                s,
                bytes.pos(),
                (n - k) as nat,
            ),
        decreases n - k,
    {
        match T::recognize(bytes, buf) {
            Ok(_) => {},
            Err(e) => {
                return Err(e);
            },
        }
        k = k + 1;
    }
    Ok(bytes.take_slice_from(mark))
}

impl<'b, T: WireDecode> ByteSlice<'b, T> {
    /// Decode the single value this window was recognized as holding.
    pub fn decode(&self, buf: &mut Vec<u8>) -> (r: Result<T, DecodingError>)
        ensures
            match r {
                Ok(v) => T::dec(self.bytes(), 0) matches Some((vv, _)) && vv == v.deep_view(),
                Err(e) => T::dec(self.bytes(), 0) is None && e == T::dec_err(self.bytes(), 0),
            },
    {
        let mut bytes = Bytes::new(self.as_bytes());
        T::decode(&mut bytes, buf)
    }
}

impl<'b, T: Decodable> ByteSlice<'b, T> {
    /// Decode the `n` values this window was recognized as holding.
    pub fn decode_many(&self, buf: &mut Vec<u8>, n: usize, values: &mut Vec<T>) -> (r: Result<
        (),
        DecodingError,
    >)
        ensures
            match r {
                Ok(()) => T::dec_n(self.bytes(), 0, n as nat) matches Some((vs, _)) && vs == final(values).deep_view().skip(old(values)@.len() as int) && final(values)@.len() == old(values)@.len() + n,
                Err(_) => T::dec_n(self.bytes(), 0, n as nat) is None,
            },
            final(values).deep_view().take(old(values)@.len() as int) == old(values).deep_view(),
    {
        let mut bytes = Bytes::new(self.as_bytes());
        T::decode_many(&mut bytes, buf, n, values)
    }
}

impl<T: WireDecode> ByteSpan<T> {
    /// Decode the single value this detached span points at in `origin`.
    pub fn decode(&self, origin: &[u8], buf: &mut Vec<u8>) -> (r: Result<T, DecodingError>)
        requires
            self.offset() + self.len() <= origin@.len(),
        ensures
            ({
                let w = origin@.subrange(self.offset(), self.offset() + self.len());
                match r {
                    Ok(v) => T::dec(w, 0) matches Some((vv, _)) && vv == v.deep_view(),
                    Err(e) => T::dec(w, 0) is None && e == T::dec_err(w, 0),
                }
            }),
    {
        let mut bytes = Bytes::new(self.as_bytes(origin));
        T::decode(&mut bytes, buf)
    }
}

impl<T: Decodable> ByteSpan<T> {
    /// Decode the `n` values this detached span points at in `origin`.
    pub fn decode_many(&self, origin: &[u8], buf: &mut Vec<u8>, n: usize, values: &mut Vec<T>) -> (r:
        Result<(), DecodingError>)
        requires
            self.offset() + self.len() <= origin@.len(),
        ensures
            ({
                let w = origin@.subrange(self.offset(), self.offset() + self.len());
                match r {
                    Ok(()) => T::dec_n(w, 0, n as nat) matches Some((vs, _)) && vs == final(values).deep_view().skip(old(values)@.len() as int) && final(values)@.len() == old(values)@.len() + n,
                    Err(_) => T::dec_n(w, 0, n as nat) is None,
                }
            }),
            final(values).deep_view().take(old(values)@.len() as int) == old(values).deep_view(),
    {
        let mut bytes = Bytes::new(self.as_bytes(origin));
        T::decode_many(&mut bytes, buf, n, values)
    }
}

/// The contract of a flag enum: a fixed roster of flags, each with its bit
/// index in declaration order.
pub trait IsFlag: Copy + Sized {
    /// How many flags the enum declares.
    spec fn spec_count() -> nat;

    /// Whether the enum is exhaustive: an exhaustive flag enum travels as
    /// a fixed-size bitmap, a non-exhaustive one as a length-prefixed one.
    spec fn spec_exhaustive() -> bool;

    /// The bit index of this flag.
    spec fn spec_bit_index(&self) -> nat;

    fn count() -> (r: usize)
        ensures
            r == Self::spec_count(),
    ;

    fn is_exhaustive() -> (r: bool)
        ensures
            r == Self::spec_exhaustive(),
    ;

    fn bit_index(&self) -> (r: usize)
        ensures
            r == self.spec_bit_index(),
            r < Self::spec_count(),
    ;

    /// Every declared flag, in declaration order.
    fn all() -> (r: Vec<Self>)
        ensures
            r@.len() == Self::spec_count(),
            forall|k: int| 0 <= k < r@.len() ==> #[trigger] r@[k].spec_bit_index() == k,
    ;
}

/// Splitting a copied window's equality into its two parts.
pub proof fn lemma_subrange_cat(s: Seq<u8>, i: int, a: Seq<u8>, b: Seq<u8>)
    requires
        0 <= i,
        i + a.len() + b.len() <= s.len(),
        s.subrange(i, i + a.len() + b.len()) == a + b,
    ensures
        s.subrange(i, i + a.len() as int) == a,
        s.subrange(i + a.len() as int, i + a.len() + b.len()) == b,
{
    let w = s.subrange(i, i + a.len() + b.len());
    assert(s.subrange(i, i + a.len() as int) =~= w.subrange(0, a.len() as int));
    assert(w.subrange(0, a.len() as int) =~= a);
    assert(s.subrange(i + a.len() as int, i + a.len() + b.len()) =~= w.subrange(
        a.len() as int,
        w.len() as int,
    ));
    assert(w.subrange(a.len() as int, w.len() as int) =~= b);
}

/// A sub-window of equal windows is itself equal.
pub proof fn lemma_subwindow(s: Seq<u8>, i: int, e: int, t: Seq<u8>, k: int, a: int, b: int)
    requires
        0 <= i <= a <= b <= e <= s.len(),
        0 <= k,
        k + (e - i) <= t.len(),
        t.subrange(k, k + (e - i)) == s.subrange(i, e),
    ensures
        t.subrange(k + (a - i), k + (b - i)) == s.subrange(a, b),
{
    let big_t = t.subrange(k, k + (e - i));
    let big_s = s.subrange(i, e);
    assert(big_t =~= big_s);
    assert(t.subrange(k + (a - i), k + (b - i)) =~= big_t.subrange(a - i, b - i));
    assert(s.subrange(a, b) =~= big_s.subrange(a - i, b - i));
}

} // verus!

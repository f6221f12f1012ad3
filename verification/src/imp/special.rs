//! Flag bitmaps. An exhaustive flag enum travels as a fixed-size bitmap of
//! `ceil(K/8)` bytes for `K` declared flags; a non-exhaustive one is
//! prefixed with a relaxed (varint) byte count, so a producer may carry
//! flags the consumer does not know.

use core::marker::PhantomData;
use vstd::prelude::*;
use vstd::slice::slice_to_vec;

use crate::base::boolean::{bit_of, spec_byte_size};
use crate::base::uint::{self, lemma_uint_wire_dec, uint_dec, uint_wire};
use crate::base::utils;
use crate::bytes::{ByteSlice, Bytes};
use crate::errors::{eof, DecodingError};
use crate::imp::collections::lemma_uint_dec_frame_window;
use crate::traits::{
    dec_iter, dec_iter_err, lemma_dec_iter_frame, lemma_dec_iter_in_range, lemma_iter_wire_dec,
    lemma_rec_iter_covers, rec_iter, rec_iter_err, wire_iter, Decodable, Encodable, IsFlag,
    WireDecode, WireEncode,
};

verus! {

/// A set of flags of the flag enum `T`, held as a bitmap. Bit `i`
/// corresponds to the `i`-th declared flag.
#[derive(Debug)]
pub struct Flags<T> {
    flags: Vec<u8>,
    ty: PhantomData<T>,
}

/// Whether bit `idx` is set in a bitmap (bits beyond the bitmap are clear).
pub open spec fn spec_is_set(bitmap: Seq<u8>, idx: nat) -> bool {
    idx / 8 < bitmap.len() && bit_of(bitmap, idx as int)
}

impl<T> Flags<T> {
    /// The bitmap the flag set holds.
    pub closed spec fn bitmap(&self) -> Seq<u8> {
        self.flags@
    }
}

impl<T> DeepView for Flags<T> {
    type V = Seq<u8>;

    open spec fn deep_view(&self) -> Seq<u8> {
        self.bitmap()
    }
}

/// The wire bytes of a flag set: the bitmap itself for an exhaustive flag
/// enum, a relaxed byte count then the bitmap otherwise.
pub open spec fn flags_wire<T: IsFlag>(bitmap: Seq<u8>) -> Seq<u8> {
    if T::spec_exhaustive() {
        bitmap
    } else {
        uint_wire(bitmap.len() as u64) + bitmap
    }
}

/// Decoding a flag set from `s` at `i`: the bitmap bytes.
pub open spec fn flags_dec<T: IsFlag>(s: Seq<u8>, i: int) -> Option<(Seq<u8>, int)> {
    if T::spec_exhaustive() {
        let c = spec_byte_size(T::spec_count()) as int;
        if 0 <= i && i + c <= s.len() {
            Some((s.subrange(i, i + c), i + c))
        } else {
            None
        }
    } else {
        match uint_dec(s, i) {
            None => None,
            Some((len, j)) => {
                if j + len <= s.len() {
                    Some((s.subrange(j, j + len as int), j + len as int))
                } else {
                    None
                }
            },
        }
    }
}

/// Which error a failed flag-set decode reports.
pub open spec fn flags_dec_err<T: IsFlag>(s: Seq<u8>, i: int) -> DecodingError {
    if T::spec_exhaustive() {
        eof(i)
    } else {
        match uint_dec(s, i) {
            None => eof(i),
            Some((len, j)) => {
                if len > usize::MAX {
                    eof(i)
                } else {
                    eof(j)
                }
            },
        }
    }
}

impl<T: IsFlag> WireEncode for Flags<T> {
    open spec fn wire(&self) -> Seq<u8> {
        flags_wire::<T>(self.bitmap())
    }

    /// An exhaustive flag set's bitmap always has the fixed size.
    open spec fn wf_value(&self) -> bool {
        T::spec_exhaustive() ==> self.bitmap().len() == spec_byte_size(T::spec_count())
    }

    fn encode(&self, out: &mut Vec<u8>) {
        if !T::is_exhaustive() {
            utils::encode_discriminant_relaxed(self.flags.len(), out);
        }
        crate::imp::builtin::push_slice(out, self.flags.as_slice());
        assert(final(out)@ =~= old(out)@ + self.wire());
    }
}

impl<T: IsFlag> Encodable for Flags<T> {
    open spec fn wire_n(values: Seq<Flags<T>>) -> Seq<u8> {
        wire_iter(values)
    }

    fn encode_many(values: &[Flags<T>], out: &mut Vec<u8>) {
        crate::traits::encode_each(values, out);
    }
}

impl<T: IsFlag> WireDecode for Flags<T> {
    open spec fn dec(s: Seq<u8>, i: int) -> Option<(Seq<u8>, int)> {
        flags_dec::<T>(s, i)
    }

    open spec fn dec_err(s: Seq<u8>, i: int) -> DecodingError {
        flags_dec_err::<T>(s, i)
    }

    open spec fn rec(s: Seq<u8>, i: int) -> Option<int> {
        match flags_dec::<T>(s, i) {
            Some((_, j)) => Some(j),
            None => None,
        }
    }

    open spec fn rec_err(s: Seq<u8>, i: int) -> DecodingError {
        flags_dec_err::<T>(s, i)
    }

    open spec fn rt() -> bool {
        true
    }

    open spec fn rec_exact() -> bool {
        true
    }

    open spec fn dec_progress() -> bool {
        T::spec_exhaustive() ==> T::spec_count() > 0
    }

    fn decode(bytes: &mut Bytes<'_>, _buf: &mut Vec<u8>) -> Result<Flags<T>, DecodingError> {
        let n_bytes: usize = if T::is_exhaustive() {
            crate::base::boolean::byte_size(T::count())
        } else {
            match utils::decode_discriminant_relaxed(bytes) {
                Ok(n) => n,
                Err(e) => {
                    return Err(e);
                },
            }
        };
        match bytes.consume_bytes(n_bytes) {
            Some(slice) => Ok(Flags { flags: slice_to_vec(slice), ty: PhantomData }),
            None => Err(DecodingError::eof_at(bytes.mark().to_usize())),
        }
    }

    fn recognize<'a>(bytes: &mut Bytes<'a>, _buf: &mut Vec<u8>) -> Result<
        ByteSlice<'a, Flags<T>>,
        DecodingError,
    > {
        let mark = bytes.mark();
        let n_bytes: usize = if T::is_exhaustive() {
            crate::base::boolean::byte_size(T::count())
        } else {
            match utils::decode_discriminant_relaxed(bytes) {
                Ok(n) => n,
                Err(e) => {
                    return Err(e);
                },
            }
        };
        if n_bytes <= bytes.remaining_len() {
            bytes.consume(n_bytes);
            Ok(bytes.take_slice_from(mark))
        } else {
            Err(DecodingError::eof_at(bytes.mark().to_usize()))
        }
    }

    proof fn lemma_dec_in_range(s: Seq<u8>, i: int) {
    }

    proof fn lemma_dec_progress(s: Seq<u8>, i: int) {
    }

    proof fn lemma_wire_dec(&self, s: Seq<u8>, i: int) {
        if T::spec_exhaustive() {
            let c = spec_byte_size(T::spec_count()) as int;
            assert(s.subrange(i, i + c) =~= self.bitmap());
        } else {
            assert(self.bitmap().len() == vstd::std_specs::vec::spec_vec_len(&self.flags));
            let lw = uint_wire(self.bitmap().len() as u64);
            let w = self.wire();
            assert(s.subrange(i, i + lw.len() as int) =~= w.subrange(0, lw.len() as int));
            assert(w.subrange(0, lw.len() as int) =~= lw);
            lemma_uint_wire_dec(self.bitmap().len() as u64, s, i);
            let j = i + lw.len() as int;
            assert(s.subrange(j, j + self.bitmap().len() as int) =~= w.subrange(
                lw.len() as int,
                w.len() as int,
            ));
            assert(w.subrange(lw.len() as int, w.len() as int) =~= self.bitmap());
        }
    }

    proof fn lemma_rec_covers(s: Seq<u8>, i: int) {
    }

    proof fn lemma_dec_frame(s: Seq<u8>, i: int, t: Seq<u8>, k: int) {
        let e = flags_dec::<T>(s, i)->Some_0.1;
        if T::spec_exhaustive() {
            let c = spec_byte_size(T::spec_count()) as int;
            assert(t.subrange(k, k + c) =~= s.subrange(i, i + c));
        } else {
            let (len, j) = uint_dec(s, i)->Some_0;
            lemma_uint_dec_frame_window(s, i, t, k, e);
            let k1 = k + (j - i);
            assert(t.subrange(k1, k1 + (e - j)) =~= s.subrange(j, e)) by {
                let big_t = t.subrange(k, k + (e - i));
                let big_s = s.subrange(i, e);
                assert(big_t =~= big_s);
                assert(t.subrange(k1, k1 + (e - j)) =~= big_t.subrange(j - i, e - i));
                assert(s.subrange(j, e) =~= big_s.subrange(j - i, e - i));
            }
        }
    }
}

impl<T: IsFlag> Decodable for Flags<T> {
    open spec fn dec_n(s: Seq<u8>, i: int, n: nat) -> Option<(Seq<Seq<u8>>, int)> {
        dec_iter::<Flags<T>>(s, i, n)
    }

    open spec fn dec_n_err(s: Seq<u8>, i: int, n: nat) -> DecodingError {
        dec_iter_err::<Flags<T>>(s, i, n)
    }

    open spec fn rec_n(s: Seq<u8>, i: int, n: nat) -> Option<int> {
        rec_iter::<Flags<T>>(s, i, n)
    }

    open spec fn rec_n_err(s: Seq<u8>, i: int, n: nat) -> DecodingError {
        rec_iter_err::<Flags<T>>(s, i, n)
    }

    fn decode_many(
        bytes: &mut Bytes<'_>,
        buf: &mut Vec<u8>,
        n: usize,
        values: &mut Vec<Flags<T>>,
    ) -> Result<(), DecodingError> {
        crate::traits::decode_each(bytes, buf, n, values)
    }

    fn recognize_many<'a>(bytes: &mut Bytes<'a>, buf: &mut Vec<u8>, n: usize) -> Result<
        ByteSlice<'a, Flags<T>>,
        DecodingError,
    > {
        crate::traits::recognize_each(bytes, buf, n)
    }

    proof fn lemma_wire_dec_n(values: Seq<Flags<T>>, s: Seq<u8>, i: int) {
        lemma_iter_wire_dec::<Flags<T>>(values, s, i);
    }

    proof fn lemma_dec_n_in_range(s: Seq<u8>, i: int, n: nat) {
        lemma_dec_iter_in_range::<Flags<T>>(s, i, n);
    }

    proof fn lemma_dec_n_frame(s: Seq<u8>, i: int, t: Seq<u8>, k: int, n: nat) {
        lemma_dec_iter_frame::<Flags<T>>(s, i, t, k, n);
    }

    proof fn lemma_rec_covers_n(s: Seq<u8>, i: int, n: nat) {
        lemma_rec_iter_covers::<Flags<T>>(s, i, n);
    }
}

impl<T: IsFlag> Flags<T> {
    /// The empty flag set: a zeroed fixed-size bitmap for an exhaustive
    /// flag enum, and no bytes at all otherwise.
    pub fn empty() -> (r: Flags<T>)
        ensures
            r.wf_value(),
            r.bitmap().len() == (if T::spec_exhaustive() {
                spec_byte_size(T::spec_count()) as int
            } else {
                0
            }),
            forall|idx: nat| !spec_is_set(r.bitmap(), idx),
    {
        let mut flags: Vec<u8> = Vec::new();
        if T::is_exhaustive() {
            let n = crate::base::boolean::byte_size(T::count());
            let mut k: usize = 0;
            while k < n
                invariant
                    k <= n,
                    flags@.len() == k,
                    forall|d: int| 0 <= d < k ==> flags@[d] == 0u8,
                decreases n - k,
            {
                flags.push(0);
                k = k + 1;
            }
        }
        proof {
            assert forall|idx: nat| !spec_is_set(flags@, idx) by {
                if idx / 8 < flags@.len() {
                    lemma_zero_byte_bits(flags@, idx);
                }
            }
        }
        Flags { flags, ty: PhantomData }
    }

    /// How many bitmap bytes an exhaustive flag set occupies.
    pub fn n_bytes() -> (r: usize)
        ensures
            r == spec_byte_size(T::spec_count()),
    {
        crate::base::boolean::byte_size(T::count())
    }

    /// Grow the bitmap (with clear bits) until it covers `bit`.
    fn reserve(&mut self, bit: usize)
        requires
            bit as nat / 8 < usize::MAX,
        ensures
            final(self).bitmap().len() >= bit as nat / 8 + 1,
            final(self).bitmap().len() >= old(self).bitmap().len(),
            final(self).bitmap().take(old(self).bitmap().len() as int) == old(self).bitmap(),
            forall|d: int|
                old(self).bitmap().len() <= d < final(self).bitmap().len() ==> final(self).bitmap()[d] == 0u8,
    {
        let len = crate::base::utils::byte_index_of(bit) + 1;
        let ghost b0 = self.flags@;
        proof {
            assert(self.flags@.len() == vstd::std_specs::vec::spec_vec_len(&self.flags));
        }
        while self.flags.len() < len
            invariant
                self.flags@.len() >= b0.len(),
                self.flags@.take(b0.len() as int) == b0,
                forall|d: int| b0.len() <= d < self.flags@.len() ==> self.flags@[d] == 0u8,
                len <= usize::MAX,
            decreases len - self.flags@.len(),
        {
            let ghost before = self.flags@;
            self.flags.push(0);
            proof {
                assert(self.flags@.take(b0.len() as int) =~= before.take(b0.len() as int));
            }
        }
    }

    /// Set the flag's bit, growing a non-exhaustive bitmap as needed.
    /// Every other flag keeps its state.
    pub fn set(&mut self, flag: T)
        requires
            old(self).wf_value(),
        ensures
            final(self).wf_value(),
            spec_is_set(final(self).bitmap(), flag.spec_bit_index()),
            forall|idx: nat|
                idx != flag.spec_bit_index() && idx < 8 * final(self).bitmap().len()
                    ==> #[trigger] spec_is_set(final(self).bitmap(), idx) == spec_is_set(
                    old(self).bitmap(),
                    idx,
                ),
            final(self).bitmap().len() >= old(self).bitmap().len(),
    {
        let idx = flag.bit_index();
        if !T::is_exhaustive() {
            proof {
                lemma_div_le(idx as int);
            }
            self.reserve(idx);
            proof {
                lemma_grown_bits(old(self).bitmap(), self.bitmap());
            }
        } else {
            proof {
                crate::base::boolean::lemma_bit_index_in_bitmap(
                    flag.spec_bit_index(),
                    T::spec_count(),
                );
            }
        }
        let ghost grown = self.flags@;
        utils::set_bit_at(idx, &mut self.flags);
        proof {
            assert forall|j: nat|
                j != flag.spec_bit_index() && j < 8 * self.flags@.len() implies #[trigger] spec_is_set(
                self.flags@,
                j,
            ) == spec_is_set(old(self).bitmap(), j) by {
                if j / 8 < grown.len() {
                    assert(bit_of(self.flags@, j as int) == bit_of(grown, j as int));
                }
                if grown.len() > old(self).bitmap().len() && old(self).bitmap().len() <= j / 8
                    < grown.len() {
                    lemma_zero_byte_bits(grown, j);
                }
            }
        }
    }

    /// Clear the flag's bit, growing a non-exhaustive bitmap as needed.
    /// Every other flag keeps its state.
    pub fn unset(&mut self, flag: T)
        requires
            old(self).wf_value(),
        ensures
            final(self).wf_value(),
            !spec_is_set(final(self).bitmap(), flag.spec_bit_index()),
            forall|idx: nat|
                idx != flag.spec_bit_index() && idx < 8 * final(self).bitmap().len()
                    ==> #[trigger] spec_is_set(final(self).bitmap(), idx) == spec_is_set(
                    old(self).bitmap(),
                    idx,
                ),
            final(self).bitmap().len() >= old(self).bitmap().len(),
    {
        let idx = flag.bit_index();
        if !T::is_exhaustive() {
            proof {
                lemma_div_le(idx as int);
            }
            self.reserve(idx);
            proof {
                lemma_grown_bits(old(self).bitmap(), self.bitmap());
            }
        } else {
            proof {
                crate::base::boolean::lemma_bit_index_in_bitmap(
                    flag.spec_bit_index(),
                    T::spec_count(),
                );
            }
        }
        let ghost grown = self.flags@;
        utils::clear_bit_at(idx, &mut self.flags);
        proof {
            assert forall|j: nat|
                j != flag.spec_bit_index() && j < 8 * self.flags@.len() implies #[trigger] spec_is_set(
                self.flags@,
                j,
            ) == spec_is_set(old(self).bitmap(), j) by {
                if j / 8 < grown.len() {
                    assert(bit_of(self.flags@, j as int) == bit_of(grown, j as int));
                }
                if grown.len() > old(self).bitmap().len() && old(self).bitmap().len() <= j / 8
                    < grown.len() {
                    lemma_zero_byte_bits(grown, j);
                }
            }
        }
    }

    /// Whether the flag's bit is set. A bit beyond the bitmap is clear.
    pub fn is_set(&self, flag: T) -> (r: bool)
        ensures
            r == spec_is_set(self.bitmap(), flag.spec_bit_index()),
    {
        match utils::try_test_bit_at(flag.bit_index(), self.flags.as_slice()) {
            Some(b) => b,
            None => false,
        }
    }

    /// Every declared flag whose bit is set, in declaration order.
    pub fn collect(&self) -> (r: Vec<T>)
        ensures
            forall|k: int|
                0 <= k < r@.len() ==> (#[trigger] r@[k]).spec_bit_index() < T::spec_count()
                    && spec_is_set(self.bitmap(), r@[k].spec_bit_index()),
            forall|k1: int, k2: int|
                0 <= k1 < k2 < r@.len() ==> r@[k1].spec_bit_index() < r@[k2].spec_bit_index(),
            forall|idx: nat|
                idx < T::spec_count() && spec_is_set(self.bitmap(), idx) ==> exists|k: int|
                    0 <= k < r@.len() && (#[trigger] r@[k]).spec_bit_index() == idx,
    {
        let all = T::all();
        let n = all.len();
        let mut r: Vec<T> = Vec::new();
        let mut k: usize = 0;
        while k < n
            invariant
                k <= n,
                n == all@.len(),
                n == T::spec_count(),
                forall|x: int| 0 <= x < all@.len() ==> (#[trigger] all@[x]).spec_bit_index() == x,
                forall|x: int|
                    0 <= x < r@.len() ==> (#[trigger] r@[x]).spec_bit_index() < k && spec_is_set(
                        self.bitmap(),
                        r@[x].spec_bit_index(),
                    ),
                forall|x1: int, x2: int|
                    0 <= x1 < x2 < r@.len() ==> r@[x1].spec_bit_index() < r@[x2].spec_bit_index(),
                forall|idx: nat|
                    idx < k && spec_is_set(self.bitmap(), idx) ==> exists|x: int|
                        0 <= x < r@.len() && (#[trigger] r@[x]).spec_bit_index() == idx,
            decreases n - k,
        {
            let flag = all[k];
            let ghost r0 = r@;
            let present = self.is_set(flag);
            if present {
                r.push(flag);
            }
            proof {
                if present {
                    assert(r@ =~= r0.push(flag));
                    assert(r@[r@.len() - 1].spec_bit_index() == k as nat);
                }
                assert forall|idx: nat|
                    idx < k + 1 && spec_is_set(self.bitmap(), idx) implies exists|x: int|
                    0 <= x < r@.len() && (#[trigger] r@[x]).spec_bit_index() == idx by {
                    if idx < k as nat {
                        let x0 = choose|x: int|
                            0 <= x < r0.len() && (#[trigger] r0[x]).spec_bit_index() == idx;
                        assert(r@[x0].spec_bit_index() == idx);
                    } else {
                        assert(r@[r@.len() - 1].spec_bit_index() == idx);
                    }
                }
            }
            k = k + 1;
        }
        r
    }
}

/// A bit inside a zero byte is clear.
proof fn lemma_zero_byte_bits(bitmap: Seq<u8>, idx: nat)
    requires
        idx / 8 < bitmap.len() ==> bitmap[(idx / 8) as int] == 0u8,
    ensures
        !spec_is_set(bitmap, idx),
{
    if idx / 8 < bitmap.len() {
        assert(idx as int / 8 == (idx / 8) as int);
        vstd::arithmetic::power2::lemma_pow2_pos((idx % 8) as nat);
        assert((0nat / vstd::arithmetic::power2::pow2((idx as int % 8) as nat)) % 2 == 0)
            by (nonlinear_arith)
            requires
                vstd::arithmetic::power2::pow2((idx as int % 8) as nat) >= 1,
        ;
    }
}

/// Bits of the kept prefix survive growing the bitmap with zero bytes.
proof fn lemma_grown_bits(before: Seq<u8>, after: Seq<u8>)
    requires
        after.len() >= before.len(),
        after.take(before.len() as int) == before,
    ensures
        forall|idx: nat|
            idx / 8 < before.len() ==> #[trigger] spec_is_set(after, idx) == spec_is_set(
                before,
                idx,
            ),
{
    assert forall|idx: nat| idx / 8 < before.len() implies #[trigger] spec_is_set(after, idx)
        == spec_is_set(before, idx) by {
        assert(after[(idx as int) / 8] == before[(idx as int) / 8]);
    }
}

proof fn lemma_div_le(x: int)
    by (nonlinear_arith)
    requires
        x >= 0,
    ensures
        x / 8 <= x,
        x / 8 >= 0,
{
}

impl<T: IsFlag> PartialEq for Flags<T> {
    /// Flag sets compare by the set of declared flags alone: bits beyond
    /// the declared count are ignored.
    fn eq(&self, other: &Self) -> (r: bool) {
        let n = T::count();
        let mut k: usize = 0;
        let mut same = true;
        while k < n
            invariant
                k <= n,
                n == T::spec_count(),
                same == (forall|idx: nat|
                    idx < k ==> #[trigger] spec_is_set(self.bitmap(), idx) == spec_is_set(
                        other.bitmap(),
                        idx,
                    )),
            decreases n - k,
        {
            let ghost pre_same = same;
            let a = match utils::try_test_bit_at(k, self.flags.as_slice()) {
                Some(b) => b,
                None => false,
            };
            let b = match utils::try_test_bit_at(k, other.flags.as_slice()) {
                Some(b) => b,
                None => false,
            };
            if a != b {
                same = false;
            }
            proof {
                assert(a == spec_is_set(self.bitmap(), k as nat));
                assert(b == spec_is_set(other.bitmap(), k as nat));
                if a != b {
                    assert(!(forall|idx: nat|
                        idx < k + 1 ==> #[trigger] spec_is_set(self.bitmap(), idx) == spec_is_set(
                            other.bitmap(),
                            idx,
                        )));
                } else if pre_same {
                    assert forall|idx: nat|
                        idx < k + 1 implies #[trigger] spec_is_set(self.bitmap(), idx)
                        == spec_is_set(other.bitmap(), idx) by {}
                } else {
                    let idx0 = choose|idx: nat|
                        idx < k && #[trigger] spec_is_set(self.bitmap(), idx) != spec_is_set(
                            other.bitmap(),
                            idx,
                        );
                    assert(spec_is_set(self.bitmap(), idx0) != spec_is_set(other.bitmap(), idx0));
                    assert(!(forall|idx: nat|
                        idx < k + 1 ==> #[trigger] spec_is_set(self.bitmap(), idx) == spec_is_set(
                            other.bitmap(),
                            idx,
                        )));
                }
            }
            k = k + 1;
        }
        same
    }
}

/// Two flag sets hold the same flags: every declared flag's bit agrees.
pub open spec fn flags_eq<T: IsFlag>(a: &Flags<T>, b: &Flags<T>) -> bool {
    forall|idx: nat|
        idx < T::spec_count() ==> #[trigger] spec_is_set(a.bitmap(), idx) == spec_is_set(
            b.bitmap(),
            idx,
        )
}

impl<T: IsFlag> vstd::std_specs::cmp::PartialEqSpecImpl for Flags<T> {
    open spec fn obeys_eq_spec() -> bool {
        true
    }

    open spec fn eq_spec(&self, other: &Self) -> bool {
        flags_eq(self, other)
    }
}

impl<T: IsFlag> Eq for Flags<T> {

}

} // verus!

//! The wire format's global laws, stated once over the codec protocol:
//! round-trips, the agreement of recognition and decoding, varint
//! minimality, boolean packing, and stream appends.

use vstd::prelude::*;

use crate::base::boolean::{bits_of, bool_wire_n, lemma_bool_wire_bits, spec_byte_size};
use crate::base::uint::{
    lemma_le_seq_val, lemma_le_val_bound, lemma_pow256_pos, lemma_uint_len_bound, pow256,
    uint_len, uint_wire,
};
use crate::imp::collections::stream_items;
use crate::traits::{Decodable, WireDecode, WireEncode};

verus! {

/// Round-trip: for every wire value (of a type whose decode returns the
/// value, which is every type but streams), decoding its own encoding
/// yields it back and consumes exactly its bytes.
pub proof fn lemma_encode_decode_roundtrip<T: WireDecode>(v: T)
    requires
        T::rt(),
        v.wf_value(),
    ensures
        T::dec(v.wire(), 0) == Some((v.deep_view(), v.wire().len() as int)),
{
    assert(v.wire().subrange(0, v.wire().len() as int) =~= v.wire());
    v.lemma_wire_dec(v.wire(), 0);
}

/// Bulk round-trip: decoding a run's own bulk encoding yields the run's
/// values back. For booleans this is exactly the boolean-packing law.
pub proof fn lemma_encode_decode_many_roundtrip<T: Decodable>(values: Seq<T>)
    requires
        T::rt(),
        forall|k: int| 0 <= k < values.len() ==> (#[trigger] values[k]).wf_value(),
    ensures
        T::dec_n(T::wire_n(values), 0, values.len() as nat) == Some(
            (crate::traits::views_of(values), T::wire_n(values).len() as int),
        ),
{
    let w = T::wire_n(values);
    assert(w.subrange(0, w.len() as int) =~= w);
    T::lemma_wire_dec_n(values, w, 0);
}

/// Boolean packing: a run of `n` booleans occupies exactly `ceil(n/8)`
/// bytes, and each boolean travels as its own bit, so the unused high
/// bits of the last byte do not matter on decode.
pub proof fn lemma_bool_packing(bs: Seq<bool>)
    ensures
        bool_wire_n(bs).len() == spec_byte_size(bs.len() as nat),
        bits_of(bool_wire_n(bs), bs.len() as nat) == bs,
{
    lemma_bool_wire_bits(bs);
    assert(bits_of(bool_wire_n(bs), bs.len() as nat) =~= bs);
}

/// Varint minimality: the unsigned varint encoder produces the shortest
/// representation. A value up to 247 is its own single byte; otherwise
/// the head names the least trailing byte count that carries the value,
/// and the leading (highest) trailing byte is nonzero.
pub proof fn lemma_uint_wire_minimal(v: u64)
    ensures
        v <= 247 ==> uint_wire(v) == seq![v as u8],
        v > 247 ==> {
            let n = uint_len(v as nat);
            &&& uint_wire(v).len() == 1 + n
            &&& uint_wire(v)[0] == 247 + n
            &&& v < pow256(n)
            &&& n > 1 ==> v >= pow256((n - 1) as nat)
            &&& uint_wire(v)[uint_wire(v).len() - 1] != 0
        },
{
    if v > 247 {
        let n = uint_len(v as nat);
        lemma_uint_len_bound(v as nat);
        lemma_le_seq_val(v as nat, n);
        crate::base::uint::lemma_uint_len_le_8(v);
        let top = crate::base::uint::le_seq(v as nat, n)[n - 1];
        lemma_le_seq_top_byte(v as nat, n);
        assert(uint_wire(v)[uint_wire(v).len() - 1] == top);
    }
}

/// The highest byte of a minimal little-endian spelling is nonzero.
proof fn lemma_le_seq_top_byte(v: nat, n: nat)
    requires
        n == uint_len(v),
        v >= 248,
    ensures
        crate::base::uint::le_seq(v, n)[n - 1] != 0,
    decreases n,
{
    lemma_uint_len_bound(v);
    lemma_le_seq_val(v, n);
    lemma_le_seq_val(v / 256, (n - 1) as nat);
    crate::imp::fixed::lemma_pow256_values();
    if n == 1 {
        assert(crate::base::uint::le_seq(v, 1)[0] == (v % 256) as u8);
        assert(v < 256);
        assert(v % 256 == v) by (nonlinear_arith)
            requires
                0 <= v < 256,
        ;
    } else {
        assert(crate::base::uint::le_seq(v, n)[n - 1] == crate::base::uint::le_seq(
            v / 256,
            (n - 1) as nat,
        )[n - 2]);
        assert(v / 256 >= 1 && uint_len(v) == 1 + uint_len(v / 256)) by {
            crate::base::uint::lemma_div_bounds(v as int, 256);
        }
        if v / 256 >= 248 {
            lemma_le_seq_top_byte(v / 256, (n - 1) as nat);
        } else {
            assert(n == 2);
            assert(crate::base::uint::le_seq(v / 256, 1)[0] == ((v / 256) % 256) as u8);
            assert(v / 256 < 256 && v / 256 >= 1) by (nonlinear_arith)
                requires
                    v < pow256(2),
                    v >= 256,
                    pow256(2) == 256 * 256,
            ;
            assert((v / 256) % 256 == v / 256) by (nonlinear_arith)
                requires
                    0 <= v / 256 < 256,
            ;
        }
    }
}

/// Appending one encoded item to a cleanly parsed stream extends the
/// stream's items by exactly that value.
pub proof fn lemma_stream_push<T: WireDecode>(s: Seq<u8>, i: int, v: T)
    requires
        T::rt(),
        T::dec_progress(),
        v.wf_value(),
        0 <= i <= s.len(),
        stream_items::<T>(s, i) is Some,
    ensures
        stream_items::<T>(s + v.wire(), i) == Some(
            stream_items::<T>(s, i)->Some_0.push(v.deep_view()),
        ),
    decreases s.len() - i,
{
    let t = s + v.wire();
    if i == s.len() {
        assert(t.subrange(i, i + v.wire().len() as int) =~= v.wire());
        v.lemma_wire_dec(t, i);
        if v.wire().len() == 0 {
            // a zero-byte encoding would decode without consuming anything,
            // which the progress law rules out
            let u = seq![0u8];
            assert(u.subrange(0, 0) =~= v.wire());
            v.lemma_wire_dec(u, 0);
            T::lemma_dec_progress(u, 0);
            assert(false);
        } else {
            let j = i + v.wire().len() as int;
            assert(stream_items::<T>(t, j) == Some(Seq::<T::V>::empty()));
            assert(stream_items::<T>(t, i) == Some(seq![v.deep_view()] + Seq::<T::V>::empty()));
            assert(seq![v.deep_view()] + Seq::<T::V>::empty() =~= Seq::<T::V>::empty().push(
                v.deep_view(),
            ));
            assert(stream_items::<T>(s, i) == Some(Seq::<T::V>::empty()));
        }
    } else {
        let (v0, j) = T::dec(s, i)->Some_0;
        assert(i < j <= s.len());
        assert(t.subrange(i, j) =~= s.subrange(i, j));
        T::lemma_dec_frame(s, i, t, i);
        lemma_stream_push::<T>(s, j, v);
        let vs = stream_items::<T>(s, j)->Some_0;
        assert(stream_items::<T>(s, i) == Some(seq![v0] + vs));
        assert(stream_items::<T>(t, i) == Some(seq![v0] + vs.push(v.deep_view())));
        assert(seq![v0] + vs.push(v.deep_view()) =~= (seq![v0] + vs).push(v.deep_view()));
    }
}

} // verus!

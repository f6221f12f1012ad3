//! Booleans and packed boolean runs. A single boolean is one byte whose
//! bit 0 carries the value. A run of `n` booleans occupies `ceil(n/8)`
//! bytes, bits in little-endian order within each byte; the unused high
//! bits of the last byte are ignored on decode.

use vstd::arithmetic::div_mod::{
    lemma_div_denominator, lemma_fundamental_div_mod, lemma_fundamental_div_mod_converse,
    lemma_small_mod,
};
use vstd::arithmetic::power2::{lemma2_to64, lemma_pow2_adds, lemma_pow2_pos, pow2};
use vstd::prelude::*;

use crate::bytes::{ByteSlice, Bytes};
use crate::errors::{eof, DecodingError};

verus! {

/// How many bytes a run of `n_bits` booleans occupies, with the quotient
/// and remainder of `n_bits / 8` beside it.
pub open spec fn spec_byte_size_extra(n_bits: nat) -> (nat, nat, nat) {
    let div = n_bits / 8;
    let rem = n_bits % 8;
    ((if rem > 0 {
        div + 1
    } else {
        div
    }), div, rem)
}

/// `ceil(n_bits / 8)`.
pub open spec fn spec_byte_size(n_bits: nat) -> nat {
    spec_byte_size_extra(n_bits).0
}

/// Bit `j` of a byte string, bits little-endian within each byte.
pub open spec fn bit_of(s: Seq<u8>, j: int) -> bool {
    ((s[j / 8] as nat) / pow2((j % 8) as nat)) % 2 == 1
}

/// The first `n` bits of a byte string as a boolean sequence.
pub open spec fn bits_of(s: Seq<u8>, n: nat) -> Seq<bool> {
    Seq::new(n, |j: int| bit_of(s, j))
}

/// The byte packing up to eight booleans, bit 0 first.
pub open spec fn packed_byte(bs: Seq<bool>) -> nat
    decreases bs.len(),
{
    if bs.len() == 0 {
        0
    } else {
        (if bs[0] {
            1nat
        } else {
            0nat
        }) + 2 * packed_byte(bs.drop_first())
    }
}

/// The wire bytes of a packed run of booleans.
pub open spec fn bool_wire_n(bs: Seq<bool>) -> Seq<u8>
    decreases bs.len(),
{
    if bs.len() == 0 {
        Seq::empty()
    } else if bs.len() <= 8 {
        seq![packed_byte(bs) as u8]
    } else {
        seq![packed_byte(bs.take(8)) as u8] + bool_wire_n(bs.skip(8))
    }
}

/// The wire byte of one boolean.
pub open spec fn bool_wire(v: bool) -> Seq<u8> {
    seq![
        if v {
            1u8
        } else {
            0u8
        },
    ]
}

/// Decoding one boolean from `s` at position `i`: bit 0 of the byte there.
pub open spec fn bool_dec(s: Seq<u8>, i: int) -> Option<(bool, int)> {
    if 0 <= i < s.len() {
        Some(((s[i] % 2 == 1), i + 1))
    } else {
        None
    }
}

pub proof fn lemma_packed_byte_bound(bs: Seq<bool>)
    ensures
        packed_byte(bs) < pow2(bs.len() as nat),
    decreases bs.len(),
{
    lemma_pow2_pos(bs.len() as nat);
    if bs.len() > 0 {
        lemma_packed_byte_bound(bs.drop_first());
        lemma_pow2_adds(1, (bs.len() - 1) as nat);
        lemma2_to64();
        assert(packed_byte(bs) <= 1 + 2 * packed_byte(bs.drop_first()));
        assert(2 * packed_byte(bs.drop_first()) <= 2 * (pow2((bs.len() - 1) as nat) - 1))
            by (nonlinear_arith)
            requires
                packed_byte(bs.drop_first()) <= pow2((bs.len() - 1) as nat) - 1,
        ;
    }
}

/// Bit `k` of the packed byte is the `k`-th boolean.
pub proof fn lemma_packed_byte_bit(bs: Seq<bool>, k: int)
    requires
        bs.len() <= 8,
        0 <= k < bs.len(),
    ensures
        ((packed_byte(bs) / pow2(k as nat)) % 2 == 1) == bs[k],
    decreases k,
{
    let b0: nat = if bs[0] {
        1
    } else {
        0
    };
    let rest = packed_byte(bs.drop_first());
    if k == 0 {
        lemma2_to64();
        assert(packed_byte(bs) / pow2(0) == packed_byte(bs)) by {
            assert(pow2(0) == 1);
            assert(packed_byte(bs) / 1 == packed_byte(bs)) by (nonlinear_arith);
        }
        assert((b0 + 2 * rest) % 2 == b0) by (nonlinear_arith)
            requires
                b0 < 2,
                rest >= 0,
        ;
    } else {
        lemma_packed_byte_bit(bs.drop_first(), k - 1);
        assert((b0 + 2 * rest) / 2 == rest) by (nonlinear_arith)
            requires
                b0 < 2,
                rest >= 0,
        ;
        lemma2_to64();
        lemma_pow2_pos((k - 1) as nat);
        lemma_div_denominator(packed_byte(bs) as int, 2, pow2((k - 1) as nat) as int);
        lemma_pow2_adds(1, (k - 1) as nat);
        assert(packed_byte(bs) / pow2(k as nat) == rest / pow2((k - 1) as nat));
    }
}

/// The packed run occupies exactly `ceil(n/8)` bytes and carries each
/// boolean as its bit: the statement of boolean packing.
pub proof fn lemma_bool_wire_bits(bs: Seq<bool>)
    ensures
        bool_wire_n(bs).len() == spec_byte_size(bs.len() as nat),
        forall|j: int| 0 <= j < bs.len() ==> #[trigger] bit_of(bool_wire_n(bs), j) == bs[j],
    decreases bs.len(),
{
    let w = bool_wire_n(bs);
    if bs.len() == 0 {
    } else if bs.len() <= 8 {
        lemma_packed_byte_bound(bs);
        lemma2_to64();
        assert forall|j: int| 0 <= j < bs.len() implies #[trigger] bit_of(w, j) == bs[j] by {
            assert(j / 8 == 0 && j % 8 == j) by (nonlinear_arith)
                requires
                    0 <= j < 8,
            ;
            assert(w[0] == packed_byte(bs) as u8);
            lemma_packed_byte_bit(bs, j);
        }
    } else {
        lemma_bool_wire_bits(bs.skip(8));
        lemma_packed_byte_bound(bs.take(8));
        lemma2_to64();
        let rest = bool_wire_n(bs.skip(8));
        assert(w.len() == 1 + rest.len());
        assert((bs.len() - 8) % 8 == (bs.len() % 8) as int % 8) by (nonlinear_arith)
            requires
                bs.len() >= 8,
        ;
        assert(w.len() == spec_byte_size(bs.len() as nat)) by {
            let n = bs.len() as int;
            assert((n - 8) / 8 == n / 8 - 1 && (n - 8) % 8 == n % 8) by (nonlinear_arith)
                requires
                    n >= 8,
            ;
        }
        assert forall|j: int| 0 <= j < bs.len() implies #[trigger] bit_of(w, j) == bs[j] by {
            if j < 8 {
                assert(j / 8 == 0 && j % 8 == j) by (nonlinear_arith)
                    requires
                        0 <= j < 8,
                ;
                lemma_packed_byte_bit(bs.take(8), j);
            } else {
                assert(j / 8 >= 1 && j / 8 == (j - 8) / 8 + 1 && j % 8 == (j - 8) % 8)
                    by (nonlinear_arith)
                    requires
                        j >= 8,
                ;
                assert(w[j / 8] == rest[(j - 8) / 8]);
                assert(bit_of(w, j) == bit_of(rest, j - 8));
                assert(bit_of(rest, j - 8) == bs.skip(8)[j - 8]);
            }
        }
    }
}

/// Encode one boolean as one byte.
pub fn encode(value: bool, out: &mut Vec<u8>)
    ensures
        final(out)@ == old(out)@ + bool_wire(value),
{
    out.push(if value {
        1
    } else {
        0
    });
    assert(final(out)@ =~= old(out)@ + bool_wire(value));
}

/// Encode a run of booleans as a little-endian bitmap.
pub fn encode_many(values: &[bool], out: &mut Vec<u8>)
    ensures
        final(out)@ == old(out)@ + bool_wire_n(values@),
{
    let n = values.len();
    let mut i: usize = 0;
    proof {
        assert(values@.skip(0) =~= values@);
    }
    while i < n
        invariant
            i <= n,
            n == values@.len(),
            out@ + bool_wire_n(values@.skip(i as int)) == old(out)@ + bool_wire_n(values@),
        decreases n - i,
    {
        let c: usize = if n - i < 8 {
            n - i
        } else {
            8
        };
        let ghost chunk = values@.skip(i as int).take(c as int);
        let mut byte: u8 = 0;
        let mut p: u16 = 1;
        let mut k: usize = 0;
        proof {
            assert(chunk.take(0) =~= Seq::<bool>::empty());
            lemma2_to64();
        }
        while k < c
            invariant
                k <= c,
                c <= 8,
                i + c <= n,
                n == values@.len(),
                chunk == values@.skip(i as int).take(c as int),
                byte == packed_byte(chunk.take(k as int)),
                p == pow2(k as nat),
            decreases c - k,
        {
            proof {
                lemma_packed_byte_bound(chunk.take(k as int));
                lemma_packed_push(chunk.take(k as int), values@[i + k]);
                assert(chunk.take(k + 1) =~= chunk.take(k as int).push(values@[i + k]));
                lemma_pow2_adds(k as nat, 1);
                lemma2_to64();
                vstd::arithmetic::power2::lemma_pow2_strictly_increases(k as nat, 8);
            }
            if values[i + k] {
                byte = byte + (p as u8);
            }
            p = p * 2;
            k = k + 1;
        }
        proof {
            assert(chunk.take(c as int) =~= chunk);
            let tail = values@.skip(i as int);
            if tail.len() <= 8 {
                assert(chunk =~= tail);
                assert(bool_wire_n(tail) == seq![packed_byte(tail) as u8]);
                assert(values@.skip(i + c as int).len() == 0);
                assert(bool_wire_n(values@.skip(i + c as int)) =~= Seq::<u8>::empty());
            } else {
                assert(c == 8);
                assert(chunk =~= tail.take(8));
                assert(tail.skip(8) =~= values@.skip(i + 8));
            }
            assert((out@.push(byte)) + bool_wire_n(values@.skip(i + c as int)) =~= out@
                + bool_wire_n(values@.skip(i as int)));
        }
        out.push(byte);
        i = i + c;
    }
    assert(values@.skip(n as int).len() == 0);
    assert(bool_wire_n(values@.skip(n as int)) =~= Seq::<u8>::empty());
    assert(out@ =~= out@ + bool_wire_n(values@.skip(n as int)));
}

proof fn lemma_packed_push(bs: Seq<bool>, b: bool)
    ensures
        packed_byte(bs.push(b)) == packed_byte(bs) + (if b {
            pow2(bs.len() as nat)
        } else {
            0
        }),
    decreases bs.len(),
{
    lemma2_to64();
    if bs.len() == 0 {
        assert(bs.push(b).drop_first() =~= Seq::<bool>::empty());
        assert(bs.push(b)[0] == b);
        assert(packed_byte(bs.push(b).drop_first()) == 0);
        assert(pow2(0) == 1);
    } else {
        assert(bs.push(b).drop_first() =~= bs.drop_first().push(b));
        lemma_packed_push(bs.drop_first(), b);
        lemma_pow2_adds(1, (bs.len() - 1) as nat);
    }
}

/// Decode one boolean: bit 0 of the next byte.
pub fn decode(bytes: &mut Bytes<'_>) -> (r: Result<bool, DecodingError>)
    requires
        old(bytes).wf(),
    ensures
        final(bytes).wf(),
        final(bytes).data() == old(bytes).data(),
        match r {
            Ok(v) => bool_dec(old(bytes).data(), old(bytes).pos()) == Some(
                (v, final(bytes).pos()),
            ),
            Err(e) => {
                &&& bool_dec(old(bytes).data(), old(bytes).pos()) is None
                &&& final(bytes).pos() == old(bytes).pos()
                &&& e == eof(old(bytes).pos())
            },
        },
{
    match bytes.first() {
        Some(b) => {
            bytes.consume(1);
            Ok(b % 2 == 1)
        },
        None => Err(DecodingError::eof_at(bytes.mark().to_usize())),
    }
}

/// Decode a run of `n` booleans from a `ceil(n/8)`-byte bitmap, appending
/// them to `values`. Unused high bits of the last byte are ignored.
pub fn decode_many(bytes: &mut Bytes<'_>, n: usize, values: &mut Vec<bool>) -> (r: Result<
    (),
    DecodingError,
>)
    requires
        old(bytes).wf(),
    ensures
        final(bytes).wf(),
        final(bytes).data() == old(bytes).data(),
        match r {
            Ok(()) => {
                &&& old(bytes).pos() + spec_byte_size(n as nat) <= old(bytes).data().len()
                &&& final(bytes).pos() == old(bytes).pos() + spec_byte_size(n as nat)
                &&& final(values)@ == old(values)@ + bits_of(
                    old(bytes).data().subrange(old(bytes).pos(), final(bytes).pos()),
                    n as nat,
                )
            },
            Err(e) => {
                &&& old(bytes).pos() + spec_byte_size(n as nat) > old(bytes).data().len()
                &&& final(bytes).pos() == old(bytes).pos()
                &&& final(values)@ == old(values)@
                &&& e == eof(old(bytes).pos())
            },
        },
{
    if n == 0 {
        assert(final(values)@ =~= old(values)@ + bits_of(
            old(bytes).data().subrange(old(bytes).pos(), old(bytes).pos()),
            0,
        ));
        return Ok(());
    }
    let (n_bytes, div, rem) = byte_size_extra(n);
    let slice = match bytes.consume_bytes(n_bytes) {
        Some(s) => s,
        None => {
            return Err(DecodingError::eof_at(bytes.mark().to_usize()));
        },
    };
    let ghost w = slice@;
    let ghost base = old(values)@;
    proof {
        assert(bits_of(w, 0) =~= Seq::<bool>::empty());
        assert(values@ =~= base + bits_of(w, 0));
    }
    let mut d: usize = 0;
    let mut pushed: usize = 0;
    while d < div
        invariant
            d <= div,
            pushed == 8 * d,
            n_bytes == spec_byte_size(n as nat),
            div == n as nat / 8,
            rem == n as nat % 8,
            w.len() == n_bytes,
            slice@ == w,
            pushed <= n,
            values@ == base + bits_of(w, pushed as nat),
        decreases div - d,
    {
        let mut byte: u8 = slice[d];
        let mut k: usize = 0;
        proof {
            lemma2_to64();
            assert((w[d as int] as nat) / 1 == w[d as int] as nat) by (nonlinear_arith);
        }
        while k < 8
            invariant
                k <= 8,
                d < div,
                pushed == 8 * d + k,
                n_bytes == spec_byte_size(n as nat),
                div == n as nat / 8,
                rem == n as nat % 8,
                w.len() == n_bytes,
                slice@ == w,
                d < w.len(),
                pushed <= n,
                byte == (w[d as int] as nat) / pow2(k as nat),
                values@ == base + bits_of(w, pushed as nat),
            decreases 8 - k,
        {
            proof {
                lemma_bit_step(w, d as int, k as int, pushed as int);
            }
            values.push(byte % 2 == 1);
            proof {
                assert(bits_of(w, (pushed + 1) as nat) =~= bits_of(w, pushed as nat).push(
                    bit_of(w, pushed as int),
                ));
                lemma_pow2_pos(k as nat);
                lemma_div_denominator(w[d as int] as int, pow2(k as nat) as int, 2);
                lemma_pow2_adds(k as nat, 1);
                lemma2_to64();
            }
            byte = byte / 2;
            k = k + 1;
            pushed = pushed + 1;
            proof {
                assert(pushed <= n) by (nonlinear_arith)
                    requires
                        pushed == 8 * d + k,
                        k <= 8,
                        d < div,
                        div == n as nat / 8,
                        n >= 0,
                ;
            }
        }
        d = d + 1;
    }
    if rem > 0 {
        let mut byte: u8 = slice[div];
        let mut k: usize = 0;
        proof {
            lemma2_to64();
            assert((w[div as int] as nat) / 1 == w[div as int] as nat) by (nonlinear_arith);
        }
        while k < rem
            invariant
                k <= rem,
                0 < rem < 8,
                pushed == 8 * div + k,
                n_bytes == spec_byte_size(n as nat),
                div == n as nat / 8,
                rem == n as nat % 8,
                w.len() == n_bytes,
                slice@ == w,
                div < w.len(),
                byte == (w[div as int] as nat) / pow2(k as nat),
                values@ == base + bits_of(w, pushed as nat),
            decreases rem - k,
        {
            proof {
                lemma_bit_step(w, div as int, k as int, pushed as int);
            }
            values.push(byte % 2 == 1);
            proof {
                assert(bits_of(w, (pushed + 1) as nat) =~= bits_of(w, pushed as nat).push(
                    bit_of(w, pushed as int),
                ));
                lemma_pow2_pos(k as nat);
                lemma_div_denominator(w[div as int] as int, pow2(k as nat) as int, 2);
                lemma_pow2_adds(k as nat, 1);
                lemma2_to64();
            }
            byte = byte / 2;
            k = k + 1;
            pushed = pushed + 1;
        }
    }
    proof {
        assert(pushed == n) by (nonlinear_arith)
            requires
                rem == n as nat % 8,
                div == n as nat / 8,
                rem > 0 ==> pushed == 8 * div + rem,
                rem == 0 ==> pushed == 8 * div,
                n >= 0,
        ;
    }
    Ok(())
}

/// The bit being read in a packing loop is bit `8d + k` of the window.
proof fn lemma_bit_step(w: Seq<u8>, d: int, k: int, j: int)
    requires
        0 <= d < w.len(),
        0 <= k < 8,
        j == 8 * d + k,
    ensures
        bit_of(w, j) == (((w[d] as nat) / pow2(k as nat)) % 2 == 1),
{
    assert(j / 8 == d && j % 8 == k) by (nonlinear_arith)
        requires
            j == 8 * d + k,
            0 <= k < 8,
            d >= 0,
    ;
}

/// Recognize one boolean: one byte.
pub fn recognize<'a>(bytes: &mut Bytes<'a>) -> (r: Result<ByteSlice<'a, bool>, DecodingError>)
    requires
        old(bytes).wf(),
    ensures
        final(bytes).wf(),
        final(bytes).data() == old(bytes).data(),
        match r {
            Ok(w) => {
                &&& bool_dec(old(bytes).data(), old(bytes).pos()) matches Some((_, j))
                    && final(bytes).pos() == j
                &&& w.bytes() == old(bytes).data().subrange(old(bytes).pos(), final(bytes).pos())
                &&& w.offset() == old(bytes).pos()
            },
            Err(e) => {
                &&& bool_dec(old(bytes).data(), old(bytes).pos()) is None
                &&& final(bytes).pos() == old(bytes).pos()
                &&& e == eof(old(bytes).pos())
            },
        },
{
    match bytes.consume_slice(1) {
        Some(w) => Ok(w),
        None => Err(DecodingError::eof_at(bytes.mark().to_usize())),
    }
}

/// Recognize a run of `n` booleans: `ceil(n/8)` bytes, not inspected.
pub fn recognize_many<'a>(bytes: &mut Bytes<'a>, n: usize) -> (r: Result<
    ByteSlice<'a, bool>,
    DecodingError,
>)
    requires
        old(bytes).wf(),
    ensures
        final(bytes).wf(),
        final(bytes).data() == old(bytes).data(),
        match r {
            Ok(w) => {
                &&& old(bytes).pos() + spec_byte_size(n as nat) <= old(bytes).data().len()
                &&& final(bytes).pos() == old(bytes).pos() + spec_byte_size(n as nat)
                &&& w.bytes() == old(bytes).data().subrange(old(bytes).pos(), final(bytes).pos())
                &&& w.offset() == old(bytes).pos()
            },
            Err(e) => {
                &&& old(bytes).pos() + spec_byte_size(n as nat) > old(bytes).data().len()
                &&& final(bytes).pos() == old(bytes).pos()
                &&& e == eof(old(bytes).pos())
            },
        },
{
    let n_bytes = byte_size(n);
    match bytes.consume_slice(n_bytes) {
        Some(w) => Ok(w),
        None => Err(DecodingError::eof_at(bytes.mark().to_usize())),
    }
}

/// The byte count of a run of `n_bits` booleans, with the quotient and
/// remainder of the division by eight.
pub fn byte_size_extra(n_bits: usize) -> (r: (usize, usize, usize))
    ensures
        (r.0 as nat, r.1 as nat, r.2 as nat) == spec_byte_size_extra(n_bits as nat),
{
    let div = n_bits / 8;
    let rem = n_bits % 8;
    let n_bytes = if rem > 0 {
        div + 1
    } else {
        div
    };
    (n_bytes, div, rem)
}

/// `ceil(n_bits / 8)`.
pub fn byte_size(n_bits: usize) -> (r: usize)
    ensures
        r == spec_byte_size(n_bits as nat),
{
    byte_size_extra(n_bits).0
}

/// Decoding a packed run of `n` booleans from `s` at `i`.
pub open spec fn bool_dec_n(s: Seq<u8>, i: int, n: nat) -> Option<(Seq<bool>, int)> {
    if 0 <= i && i + spec_byte_size(n) <= s.len() {
        Some((bits_of(s.subrange(i, i + spec_byte_size(n) as int), n), i + spec_byte_size(n)))
    } else {
        None
    }
}

/// Recognizing a packed run of `n` booleans: `ceil(n/8)` bytes.
pub open spec fn bool_rec_n(s: Seq<u8>, i: int, n: nat) -> Option<int> {
    if 0 <= i && i + spec_byte_size(n) <= s.len() {
        Some(i + spec_byte_size(n))
    } else {
        None
    }
}

/// A declared flag's bit lands inside the fixed bitmap of its flag enum.
pub proof fn lemma_bit_index_in_bitmap(idx: nat, count: nat)
    requires
        idx < count,
    ensures
        idx / 8 < spec_byte_size(count),
{
    assert(idx / 8 < spec_byte_size(count)) by (nonlinear_arith)
        requires
            idx < count,
            spec_byte_size(count) == (if count % 8 > 0 {
                count / 8 + 1
            } else {
                count / 8
            }),
    ;
}

} // verus!

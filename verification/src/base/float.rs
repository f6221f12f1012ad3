//! The float varint. A 64-bit float travels as its bit pattern with the
//! byte order reversed (big-endian bytes reinterpreted as a little-endian
//! integer), then unsigned varint. Floats with long trailing-zero mantissas
//! become small integers and encode compactly; the mapping is bijective.
//!
//! This module works on the 64-bit pattern itself; turning an `f64` into
//! its bits and back is the caller's side of the boundary.

use vstd::prelude::*;

use crate::base::uint::{
    self, le_seq, le_val, lemma_le_seq_val, lemma_le_val_bound, lemma_pow256_8, lemma_pow256_mono,
    pow256, uint_dec, uint_wire,
};
use crate::bytes::{ByteSlice, Bytes};
use crate::errors::{eof, DecodingError};

verus! {

/// The byte-order reversal of a 64-bit pattern.
pub open spec fn swap64(v: u64) -> u64 {
    le_val(le_seq(v as nat, 8).reverse()) as u64
}

/// Writing a value's little-endian bytes and reading them back gives the
/// value itself, byte for byte.
pub proof fn lemma_le_seq_of_val(s: Seq<u8>)
    ensures
        le_seq(le_val(s), s.len() as nat) == s,
    decreases s.len(),
{
    if s.len() == 0 {
        assert(le_seq(le_val(s), 0) =~= s);
    } else {
        let v = le_val(s);
        let rest = le_val(s.drop_first());
        assert(v == s[0] + 256 * rest);
        assert(v % 256 == s[0] as nat && v / 256 == rest) by (nonlinear_arith)
            requires
                v == s[0] + 256 * rest,
                0 <= s[0] < 256,
                rest >= 0,
        ;
        lemma_le_seq_of_val(s.drop_first());
        assert(le_seq(v, s.len() as nat) =~= s);
    }
}

pub proof fn lemma_swap64_involutive(v: u64)
    ensures
        swap64(swap64(v)) == v,
{
    let s = le_seq(v as nat, 8);
    lemma_le_seq_val(v as nat, 8);
    lemma_le_val_bound(s.reverse());
    assert(s.reverse().len() == 8);
    lemma_pow256_8();
    let w = swap64(v);
    assert(w == le_val(s.reverse()));
    lemma_le_seq_of_val(s.reverse());
    assert(le_seq(w as nat, 8) == s.reverse());
    assert(s.reverse().reverse() =~= s);
    assert(swap64(w) == le_val(s));
    vstd::arithmetic::div_mod::lemma_small_mod(v as nat, pow256(8));
}

/// The wire bytes of the float varint encoding of the bit pattern `bits`.
pub open spec fn float_wire(bits: u64) -> Seq<u8> {
    uint_wire(swap64(bits))
}

/// Decoding a float varint from `s` at position `i`: the bit pattern and
/// the position after it.
pub open spec fn float_dec(s: Seq<u8>, i: int) -> Option<(u64, int)> {
    match uint_dec(s, i) {
        Some((u, j)) => Some((swap64(u), j)),
        None => None,
    }
}

/// Decoding right after encoding yields the bit pattern back.
pub proof fn lemma_float_wire_dec(bits: u64, s: Seq<u8>, i: int)
    requires
        0 <= i,
        i + float_wire(bits).len() <= s.len(),
        s.subrange(i, i + float_wire(bits).len() as int) == float_wire(bits),
    ensures
        float_dec(s, i) == Some((bits, i + float_wire(bits).len() as int)),
{
    uint::lemma_uint_wire_dec(swap64(bits), s, i);
    lemma_swap64_involutive(bits);
}

/// `le_seq(v, n)[k] == (v / 256^k) % 256`.
proof fn lemma_le_seq_index(v: nat, n: nat, k: int)
    requires
        0 <= k < n,
    ensures
        le_seq(v, n).len() == n,
        le_seq(v, n)[k] == ((v / pow256(k as nat)) % 256) as u8,
    decreases n,
{
    lemma_le_seq_val(v, n);
    if k == 0 {
        assert(pow256(0) == 1);
        assert(v / 1 == v) by (nonlinear_arith);
    } else {
        lemma_le_seq_index(v / 256, (n - 1) as nat, k - 1);
        assert(le_seq(v, n)[k] == le_seq(v / 256, (n - 1) as nat)[k - 1]);
        assert((v / 256) / pow256((k - 1) as nat) == v / pow256(k as nat)) by {
            uint::lemma_pow256_pos((k - 1) as nat);
            vstd::arithmetic::div_mod::lemma_div_denominator(
                v as int,
                256,
                pow256((k - 1) as nat) as int,
            );
            assert(256 * pow256((k - 1) as nat) == pow256(k as nat));
        }
    }
}

/// Reverse the byte order of a 64-bit pattern.
pub fn swap_bytes64(v: u64) -> (r: u64)
    ensures
        r == swap64(v),
{
    let ghost s = le_seq(v as nat, 8);
    let ghost rev = s.reverse();
    proof {
        lemma_le_seq_val(v as nat, 8);
        assert(rev.subrange(8, 8) =~= Seq::<u8>::empty());
    }
    let mut r: u64 = 0;
    let mut x: u64 = v;
    let mut k: usize = 0;
    proof {
        assert(pow256(0) == 1);
        assert(v as nat / 1 == v as nat) by (nonlinear_arith);
    }
    while k < 8
        invariant
            k <= 8,
            s == le_seq(v as nat, 8),
            rev == s.reverse(),
            s.len() == 8,
            r == le_val(rev.subrange(8 - k, 8)),
            x == v as nat / pow256(k as nat),
        decreases 8 - k,
    {
        let b: u8 = (x % 256) as u8;
        proof {
            lemma_le_seq_index(v as nat, 8, k as int);
            assert(s[k as int] == ((v as nat / pow256(k as nat)) % 256) as u8);
            assert(b == s[k as int]);
            let tail = rev.subrange(8 - k, 8);
            let next = rev.subrange(8 - k - 1, 8);
            assert(next[0] == rev[8 - k - 1]);
            assert(rev[8 - k - 1] == s[k as int]);
            assert(next.drop_first() =~= tail);
            assert(le_val(next) == next[0] + 256 * le_val(tail));
            lemma_le_val_bound(tail);
            lemma_pow256_mono(tail.len() as nat, 7);
            reveal_with_fuel(pow256, 9);
            assert(pow256(7) == 0x100_0000_0000_0000);
            // the place value of the next step
            uint::lemma_pow256_pos(k as nat);
            vstd::arithmetic::div_mod::lemma_div_denominator(
                v as int,
                pow256(k as nat) as int,
                256,
            );
            assert(pow256(k as nat) * 256 == pow256((k + 1) as nat)) by (nonlinear_arith)
                requires
                    pow256((k + 1) as nat) == 256 * pow256(k as nat),
            ;
        }
        r = r * 256 + (b as u64);
        x = x / 256;
        k = k + 1;
    }
    proof {
        assert(rev.subrange(0, 8) =~= rev);
        lemma_le_val_bound(rev);
        lemma_pow256_8();
        vstd::arithmetic::div_mod::lemma_small_mod(le_val(rev), pow256(8));
    }
    r
}

/// Encode the 64-bit pattern `bits` onto the end of `out`.
pub fn encode(bits: u64, out: &mut Vec<u8>)
    ensures
        final(out)@ == old(out)@ + float_wire(bits),
{
    let swapped = swap_bytes64(bits);
    uint::encode(swapped, out);
}

/// Decode a float varint at the cursor, yielding the 64-bit pattern. On
/// failure the cursor stays put and the error is an unexpected end of
/// input at the cursor.
pub fn decode(bytes: &mut Bytes<'_>) -> (r: Result<u64, DecodingError>)
    requires
        old(bytes).wf(),
    ensures
        final(bytes).wf(),
        final(bytes).data() == old(bytes).data(),
        match r {
            Ok(v) => float_dec(old(bytes).data(), old(bytes).pos()) == Some(
                (v, final(bytes).pos()),
            ),
            Err(e) => {
                &&& float_dec(old(bytes).data(), old(bytes).pos()) is None
                &&& final(bytes).pos() == old(bytes).pos()
                &&& e == eof(old(bytes).pos())
            },
        },
{
    let u = match uint::decode(bytes) {
        Ok(u) => u,
        Err(e) => {
            return Err(e);
        },
    };
    Ok(swap_bytes64(u))
}

/// Recognize a float varint: advance exactly as `decode` would.
pub fn recognize<'a>(bytes: &mut Bytes<'a>) -> (r: Result<ByteSlice<'a, u64>, DecodingError>)
    requires
        old(bytes).wf(),
    ensures
        final(bytes).wf(),
        final(bytes).data() == old(bytes).data(),
        match r {
            Ok(w) => {
                &&& float_dec(old(bytes).data(), old(bytes).pos()) matches Some((_, j))
                    && final(bytes).pos() == j
                &&& w.bytes() == old(bytes).data().subrange(old(bytes).pos(), final(bytes).pos())
                &&& w.offset() == old(bytes).pos()
            },
            Err(e) => {
                &&& float_dec(old(bytes).data(), old(bytes).pos()) is None
                &&& final(bytes).pos() == old(bytes).pos()
                &&& e == eof(old(bytes).pos())
            },
        },
{
    match uint::recognize(bytes) {
        Ok(w) => Ok(w),
        Err(e) => Err(e),
    }
}

} // verus!

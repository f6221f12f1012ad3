//! The signed varint: zig-zag the value, then unsigned varint.

use vstd::prelude::*;

use crate::base::uint;
use crate::bytes::{ByteSlice, Bytes};
use crate::errors::{eof, DecodingError};

verus! {

/// Zig-zag: non-negative `v` maps to `2v`, negative `v` to `-2v - 1`, so
/// small magnitudes of either sign get small codes.
pub open spec fn zigzag(v: i64) -> u64 {
    (if v >= 0 {
        2 * (v as int)
    } else {
        -2 * (v as int) - 1
    }) as u64
}

/// The inverse of `zigzag`.
pub open spec fn unzigzag(u: u64) -> i64 {
    (if u % 2 == 0 {
        (u / 2) as int
    } else {
        -((u / 2) as int) - 1
    }) as i64
}

pub proof fn lemma_zigzag_roundtrip(v: i64)
    ensures
        unzigzag(zigzag(v)) == v,
{
    if v >= 0 {
        assert((2 * (v as int)) as u64 == 2 * (v as int));
        assert((2 * (v as int)) % 2 == 0);
        assert((2 * (v as int)) / 2 == v as int);
    } else {
        let z = -2 * (v as int) - 1;
        assert(0 <= z <= u64::MAX);
        assert(z as u64 == z);
        assert(z % 2 == 1) by (nonlinear_arith)
            requires
                z == -2 * (v as int) - 1,
                v < 0,
        ;
        assert(z / 2 == -(v as int) - 1) by (nonlinear_arith)
            requires
                z == -2 * (v as int) - 1,
                v < 0,
        ;
    }
}

/// The wire bytes of the signed varint encoding of `v`.
pub open spec fn sint_wire(v: i64) -> Seq<u8> {
    uint::uint_wire(zigzag(v))
}

/// Decoding a signed varint from `s` at position `i`.
pub open spec fn sint_dec(s: Seq<u8>, i: int) -> Option<(i64, int)> {
    match uint::uint_dec(s, i) {
        Some((u, j)) => Some((unzigzag(u), j)),
        None => None,
    }
}

/// Decoding right after encoding yields the value back.
pub proof fn lemma_sint_wire_dec(v: i64, s: Seq<u8>, i: int)
    requires
        0 <= i,
        i + sint_wire(v).len() <= s.len(),
        s.subrange(i, i + sint_wire(v).len() as int) == sint_wire(v),
    ensures
        sint_dec(s, i) == Some((v, i + sint_wire(v).len() as int)),
{
    uint::lemma_uint_wire_dec(zigzag(v), s, i);
    lemma_zigzag_roundtrip(v);
}

/// Encode `value` onto the end of `out`.
pub fn encode(value: i64, out: &mut Vec<u8>)
    ensures
        final(out)@ == old(out)@ + sint_wire(value),
{
    let zz: u64 = if value >= 0 {
        (value as u64) * 2
    } else {
        (-(value + 1)) as u64 * 2 + 1
    };
    assert(zz == zigzag(value));
    uint::encode(zz, out);
}

/// Decode a signed varint at the cursor. On failure the cursor stays put
/// and the error is an unexpected end of input at the cursor.
pub fn decode(bytes: &mut Bytes<'_>) -> (r: Result<i64, DecodingError>)
    requires
        old(bytes).wf(),
    ensures
        final(bytes).wf(),
        final(bytes).data() == old(bytes).data(),
        match r {
            Ok(v) => sint_dec(old(bytes).data(), old(bytes).pos()) == Some(
                (v, final(bytes).pos()),
            ),
            Err(e) => {
                &&& sint_dec(old(bytes).data(), old(bytes).pos()) is None
                &&& final(bytes).pos() == old(bytes).pos()
                &&& e == eof(old(bytes).pos())
            },
        },
{
    let u = match uint::decode(bytes) {
        Ok(u) => u,
        Err(e) => {
            return Err(e);
        },
    };
    let v: i64 = if u % 2 == 0 {
        (u / 2) as i64
    } else {
        -((u / 2) as i64) - 1
    };
    assert(v == unzigzag(u));
    Ok(v)
}

/// Recognize a signed varint: advance exactly as `decode` would.
pub fn recognize<'a>(bytes: &mut Bytes<'a>) -> (r: Result<ByteSlice<'a, i64>, DecodingError>)
    requires
        old(bytes).wf(),
    ensures
        final(bytes).wf(),
        final(bytes).data() == old(bytes).data(),
        match r {
            Ok(w) => {
                &&& sint_dec(old(bytes).data(), old(bytes).pos()) matches Some((_, j))
                    && final(bytes).pos() == j
                &&& w.bytes() == old(bytes).data().subrange(old(bytes).pos(), final(bytes).pos())
                &&& w.offset() == old(bytes).pos()
            },
            Err(e) => {
                &&& sint_dec(old(bytes).data(), old(bytes).pos()) is None
                &&& final(bytes).pos() == old(bytes).pos()
                &&& e == eof(old(bytes).pos())
            },
        },
{
    match uint::recognize(bytes) {
        Ok(w) => Ok(w.cast()),
        Err(e) => Err(e),
    }
}

} // verus!

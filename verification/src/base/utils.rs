//! Discriminants and bit-level helpers shared by the composite codecs.
//! Strict discriminants are a single byte; relaxed discriminants are
//! unsigned varints for counts unbounded at compile time.

use vstd::arithmetic::power2::{lemma2_to64, lemma_pow2_adds, lemma_pow2_pos, pow2};
use vstd::bits::{lemma_u8_shl_is_mul, lemma_u8_shr_is_div};
use vstd::prelude::*;

use crate::base::boolean::bit_of;
use crate::base::uint;
use crate::bytes::Bytes;
use crate::errors::{eof, DecodingError};

verus! {

/// The strict discriminant decoded from `s` at `i`: the byte itself.
pub open spec fn disc_dec(s: Seq<u8>, i: int) -> Option<(int, int)> {
    if 0 <= i < s.len() {
        Some((s[i] as int, i + 1))
    } else {
        None
    }
}

/// Encode a strict one-byte discriminant. Types carry at most 256
/// alternatives here; a larger count takes the relaxed form.
pub fn encode_discriminant(n: usize, out: &mut Vec<u8>)
    requires
        n < 256,
    ensures
        final(out)@ == old(out)@ + seq![n as u8],
{
    out.push(n as u8);
    assert(out@ =~= old(out)@ + seq![n as u8]);
}

/// Decode a strict one-byte discriminant.
pub fn decode_discriminant(bytes: &mut Bytes<'_>) -> (r: Result<usize, DecodingError>)
    requires
        old(bytes).wf(),
    ensures
        final(bytes).wf(),
        final(bytes).data() == old(bytes).data(),
        match r {
            Ok(d) => disc_dec(old(bytes).data(), old(bytes).pos()) == Some(
                (d as int, final(bytes).pos()),
            ),
            Err(e) => {
                &&& disc_dec(old(bytes).data(), old(bytes).pos()) is None
                &&& final(bytes).pos() == old(bytes).pos()
                &&& e == eof(old(bytes).pos())
            },
        },
{
    match bytes.first() {
        Some(b) => {
            bytes.consume(1);
            Ok(b as usize)
        },
        None => Err(DecodingError::eof_at(bytes.mark().to_usize())),
    }
}

/// Encode a relaxed discriminant: an unsigned varint.
pub fn encode_discriminant_relaxed(n: usize, out: &mut Vec<u8>)
    ensures
        final(out)@ == old(out)@ + uint::uint_wire(n as u64),
{
    uint::encode(n as u64, out);
}

/// Decode a relaxed discriminant. A count that does not fit the platform's
/// `usize` cannot index anything here and reports an unexpected end of
/// input at the count's own position.
pub fn decode_discriminant_relaxed(bytes: &mut Bytes<'_>) -> (r: Result<usize, DecodingError>)
    requires
        old(bytes).wf(),
    ensures
        final(bytes).wf(),
        final(bytes).data() == old(bytes).data(),
        old(bytes).pos() <= final(bytes).pos(),
        match r {
            Ok(d) => {
                &&& uint::uint_dec(old(bytes).data(), old(bytes).pos()) == Some(
                    (d as u64, final(bytes).pos()),
                )
                &&& d as nat <= usize::MAX
            },
            Err(e) => {
                &&& match uint::uint_dec(old(bytes).data(), old(bytes).pos()) {
                    Some((v, _)) => v > usize::MAX,
                    None => final(bytes).pos() == old(bytes).pos(),
                }
                &&& e == eof(old(bytes).pos())
            },
        },
{
    let start = bytes.mark().to_usize();
    match uint::decode(bytes) {
        Ok(v) => {
            if v <= usize::MAX as u64 {
                Ok(v as usize)
            } else {
                Err(DecodingError::eof_at(start))
            }
        },
        Err(e) => Err(e),
    }
}

/// The index of the byte that carries bit `bit`.
pub fn byte_index_of(bit: usize) -> (r: usize)
    ensures
        r == bit as nat / 8,
{
    bit / 8
}

/// `(x >> k) & 1` reads the same bit the arithmetic model talks about.
proof fn lemma_u8_bit(x: u8, k: u8)
    requires
        k < 8,
    ensures
        (((x >> k) & 1) == 1) == (((x as nat) / pow2(k as nat)) % 2 == 1),
{
    lemma_u8_shr_is_div(x, k);
    assert((x >> k) & 1 == (x >> k) % 2) by (bit_vector);
}

/// Test bit `i` of the bitmap, or `None` when the bitmap is too short.
pub fn try_test_bit_at(i: usize, slice: &[u8]) -> (r: Option<bool>)
    ensures
        match r {
            Some(b) => i as nat / 8 < slice@.len() && b == bit_of(slice@, i as int),
            None => i as nat / 8 >= slice@.len(),
        },
{
    let div = i / 8;
    let rem = (i % 8) as u8;
    if div < slice.len() {
        let b = slice[div];
        proof {
            lemma_u8_bit(b, rem);
        }
        Some((b >> rem) & 1 == 1)
    } else {
        None
    }
}

/// Test bit `i` of a bitmap known to be long enough.
pub fn test_bit_at(i: usize, slice: &[u8]) -> (r: bool)
    requires
        i as nat / 8 < slice@.len(),
    ensures
        r == bit_of(slice@, i as int),
{
    match try_test_bit_at(i, slice) {
        Some(b) => b,
        None => {
            proof {
                assert(false);
            }
            false
        },
    }
}

/// Setting one bit changes that bit alone.
proof fn lemma_u8_set_bit(x: u8, k: u8, j: u8)
    requires
        k < 8,
        j < 8,
    ensures
        ((x | (1u8 << k)) >> k) & 1 == 1,
        j != k ==> ((x | (1u8 << k)) >> j) & 1 == (x >> j) & 1,
{
    assert(((x | (1u8 << k)) >> k) & 1 == 1) by (bit_vector)
        requires
            k < 8,
    ;
    assert(j != k && j < 8 && k < 8 ==> ((x | (1u8 << k)) >> j) & 1 == (x >> j) & 1)
        by (bit_vector);
}

/// Clearing one bit changes that bit alone.
proof fn lemma_u8_clear_bit(x: u8, k: u8, j: u8)
    requires
        k < 8,
        j < 8,
    ensures
        ((x & !(1u8 << k)) >> k) & 1 == 0,
        j != k ==> ((x & !(1u8 << k)) >> j) & 1 == (x >> j) & 1,
{
    assert(((x & !(1u8 << k)) >> k) & 1 == 0) by (bit_vector)
        requires
            k < 8,
    ;
    assert(j != k && j < 8 && k < 8 ==> ((x & !(1u8 << k)) >> j) & 1 == (x >> j) & 1)
        by (bit_vector);
}

/// Set bit `i` of the bitmap. Every other bit keeps its value.
pub fn set_bit_at(i: usize, slice: &mut Vec<u8>)
    requires
        i as nat / 8 < old(slice)@.len(),
    ensures
        final(slice)@.len() == old(slice)@.len(),
        bit_of(final(slice)@, i as int),
        forall|j: int|
            0 <= j < 8 * old(slice)@.len() && j != i ==> #[trigger] bit_of(final(slice)@, j)
                == bit_of(old(slice)@, j),
        forall|d: int|
            0 <= d < old(slice)@.len() && d != i as nat / 8 ==> final(slice)@[d] == old(
                slice,
            )@[d],
{
    let div = i / 8;
    let rem = (i % 8) as u8;
    let mask = 1u8 << rem;
    let b = slice[div];
    slice.set(div, b | mask);
    proof {
        lemma_u8_bit(b | mask, rem);
        lemma_u8_set_bit(b, rem, rem);
        assert(bit_of(slice@, i as int)) by {
            assert(i as int / 8 == div && i as int % 8 == rem);
        }
        assert forall|j: int|
            0 <= j < 8 * old(slice)@.len() && j != i implies #[trigger] bit_of(slice@, j)
            == bit_of(old(slice)@, j) by {
            let jd = j / 8;
            let jr = (j % 8) as u8;
            let n0 = old(slice)@.len() as int;
            assert(0 <= jd < n0 && jr < 8) by (nonlinear_arith)
                requires
                    0 <= j < 8 * n0,
                    jd == j / 8,
                    jr == (j % 8) as u8,
            ;
            if jd == div {
                assert(jr != rem) by (nonlinear_arith)
                    requires
                        j != i,
                        j / 8 == i as int / 8,
                        jr == (j % 8) as u8,
                        rem == (i % 8) as u8,
                        j >= 0,
                        i >= 0,
                ;
                lemma_u8_set_bit(b, rem, jr);
                lemma_u8_bit(b | mask, jr);
                lemma_u8_bit(b, jr);
            }
        }
    }
}

/// Clear bit `i` of the bitmap. Every other bit keeps its value.
pub fn clear_bit_at(i: usize, slice: &mut Vec<u8>)
    requires
        i as nat / 8 < old(slice)@.len(),
    ensures
        final(slice)@.len() == old(slice)@.len(),
        !bit_of(final(slice)@, i as int),
        forall|j: int|
            0 <= j < 8 * old(slice)@.len() && j != i ==> #[trigger] bit_of(final(slice)@, j)
                == bit_of(old(slice)@, j),
        forall|d: int|
            0 <= d < old(slice)@.len() && d != i as nat / 8 ==> final(slice)@[d] == old(
                slice,
            )@[d],
{
    let div = i / 8;
    let rem = (i % 8) as u8;
    let mask = !(1u8 << rem);
    let b = slice[div];
    slice.set(div, b & mask);
    proof {
        lemma_u8_bit(b & mask, rem);
        lemma_u8_clear_bit(b, rem, rem);
        assert(!bit_of(slice@, i as int)) by {
            assert(i as int / 8 == div && i as int % 8 == rem);
        }
        assert forall|j: int|
            0 <= j < 8 * old(slice)@.len() && j != i implies #[trigger] bit_of(slice@, j)
            == bit_of(old(slice)@, j) by {
            let jd = j / 8;
            let jr = (j % 8) as u8;
            let n0 = old(slice)@.len() as int;
            assert(0 <= jd < n0 && jr < 8) by (nonlinear_arith)
                requires
                    0 <= j < 8 * n0,
                    jd == j / 8,
                    jr == (j % 8) as u8,
            ;
            if jd == div {
                assert(jr != rem) by (nonlinear_arith)
                    requires
                        j != i,
                        j / 8 == i as int / 8,
                        jr == (j % 8) as u8,
                        rem == (i % 8) as u8,
                        j >= 0,
                        i >= 0,
                ;
                lemma_u8_clear_bit(b, rem, jr);
                lemma_u8_bit(b & mask, jr);
                lemma_u8_bit(b, jr);
            }
        }
    }
}

} // verus!

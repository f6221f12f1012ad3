//! Shared helpers for the fixed-width primitives: raw little-endian bytes
//! of a known size.

use vstd::prelude::*;

use crate::base::uint::{
    le_seq, le_val, lemma_le_seq_val, lemma_le_val_bound, lemma_pow256_mono, lemma_pow256_pos,
    pow256,
};
use crate::bytes::Bytes;
use crate::errors::{eof, DecodingError};

verus! {

/// Decoding a fixed-width little-endian value of `size` bytes.
pub open spec fn fixed_dec(s: Seq<u8>, i: int, size: nat) -> Option<(nat, int)> {
    if 0 <= i && i + size <= s.len() {
        Some((le_val(s.subrange(i, i + size)), i + size))
    } else {
        None
    }
}

/// The concrete values of the small powers of 256.
pub proof fn lemma_pow256_values()
    ensures
        pow256(0) == 1,
        pow256(1) == 0x100,
        pow256(2) == 0x1_0000,
        pow256(3) == 0x100_0000,
        pow256(4) == 0x1_0000_0000,
        pow256(5) == 0x100_0000_0000,
        pow256(6) == 0x1_0000_0000_0000,
        pow256(7) == 0x100_0000_0000_0000,
        pow256(8) == 0x1_0000_0000_0000_0000,
{
    reveal_with_fuel(pow256, 9);
}

/// A window of `size` bytes holds a value below `256^size`.
pub proof fn lemma_fixed_fits(s: Seq<u8>, i: int, size: nat)
    requires
        0 <= i,
        i + size <= s.len(),
    ensures
        le_val(s.subrange(i, i + size)) < pow256(size),
{
    lemma_le_val_bound(s.subrange(i, i + size));
}

/// Reading the little-endian bytes of a value that fits gives it back.
pub proof fn lemma_fixed_wire_dec(v: nat, size: nat, s: Seq<u8>, i: int)
    requires
        v < pow256(size),
        0 <= i,
        i + size <= s.len(),
        s.subrange(i, i + size) == le_seq(v, size),
    ensures
        fixed_dec(s, i, size) == Some((v, i + size)),
{
    lemma_le_seq_val(v, size);
    vstd::arithmetic::div_mod::lemma_small_mod(v, pow256(size));
}

/// Append the `size` little-endian bytes of `v`.
pub fn encode_le(v: u64, size: usize, out: &mut Vec<u8>)
    requires
        1 <= size <= 8,
    ensures
        final(out)@ == old(out)@ + le_seq(v as nat, size as nat),
{
    let mut y: u64 = v;
    let mut j: usize = 0;
    while j < size
        invariant
            j <= size,
            size <= 8,
            out@ + le_seq(y as nat, (size - j) as nat) == old(out)@ + le_seq(
                v as nat,
                size as nat,
            ),
        decreases size - j,
    {
        let b: u8 = (y % 256) as u8;
        proof {
            let m = (size - j) as nat;
            assert(le_seq(y as nat, m) == seq![(y as nat % 256) as u8] + le_seq(
                y as nat / 256,
                (m - 1) as nat,
            ));
            assert(out@.push(b) + le_seq((y / 256) as nat, (m - 1) as nat) =~= out@ + le_seq(
                y as nat,
                m,
            ));
        }
        out.push(b);
        y = y / 256;
        j = j + 1;
    }
    assert(le_seq(y as nat, 0) =~= Seq::<u8>::empty());
    assert(out@ =~= out@ + le_seq(y as nat, 0));
}

/// Read a fixed-width little-endian value of `size` bytes.
pub fn decode_le(bytes: &mut Bytes<'_>, size: usize) -> (r: Result<u64, DecodingError>)
    requires
        old(bytes).wf(),
        1 <= size <= 8,
    ensures
        final(bytes).wf(),
        final(bytes).data() == old(bytes).data(),
        match r {
            Ok(v) => fixed_dec(old(bytes).data(), old(bytes).pos(), size as nat) == Some(
                (v as nat, final(bytes).pos()),
            ),
            Err(e) => {
                &&& fixed_dec(old(bytes).data(), old(bytes).pos(), size as nat) is None
                &&& final(bytes).pos() == old(bytes).pos()
                &&& e == eof(old(bytes).pos())
            },
        },
{
    let ghost s = old(bytes).data();
    let ghost i = old(bytes).pos();
    let slice = match bytes.consume_bytes(size) {
        Some(sl) => sl,
        None => {
            return Err(DecodingError::eof_at(bytes.mark().to_usize()));
        },
    };
    let ghost window = s.subrange(i, i + size as int);
    assert(slice@ =~= window);
    let mut val: u64 = 0;
    let mut k: usize = size;
    proof {
        assert(window.subrange(size as int, size as int) =~= Seq::<u8>::empty());
    }
    while k > 0
        invariant
            k <= size,
            size <= 8,
            slice@ == window,
            window.len() == size,
            val == le_val(window.subrange(k as int, size as int)),
        decreases k,
    {
        let ghost tail = window.subrange(k as int, size as int);
        proof {
            lemma_le_val_bound(tail);
            lemma_pow256_mono(tail.len() as nat, 7);
            lemma_pow256_values();
            let next = window.subrange(k - 1, size as int);
            assert(next.drop_first() =~= tail);
            assert(le_val(next) == next[0] + 256 * le_val(tail));
        }
        k = k - 1;
        val = val * 256 + (slice[k] as u64);
    }
    proof {
        assert(window.subrange(0, size as int) =~= window);
    }
    Ok(val)
}

} // verus!

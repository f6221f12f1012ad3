//! The unsigned varint. A one-byte head `h`: if `h <= 247` the value is `h`
//! itself; otherwise `h - 247` (between 1 and 8) little-endian trailing
//! bytes follow and carry the value. The encoder picks the fewest trailing
//! bytes whose leading byte is nonzero.

use vstd::arithmetic::div_mod::{
    lemma_div_is_ordered, lemma_fundamental_div_mod, lemma_mod_division_less_than_divisor,
};
use vstd::prelude::*;

use crate::bytes::{ByteSlice, Bytes};
use crate::errors::{eof, DecodingError};

verus! {

/// 256 to the power `n`.
pub open spec fn pow256(n: nat) -> nat
    decreases n,
{
    if n == 0 {
        1
    } else {
        256 * pow256((n - 1) as nat)
    }
}

/// The `n` little-endian bytes of `v` (higher bytes of `v` are dropped).
pub open spec fn le_seq(v: nat, n: nat) -> Seq<u8>
    decreases n,
{
    if n == 0 {
        Seq::empty()
    } else {
        seq![(v % 256) as u8] + le_seq(v / 256, (n - 1) as nat)
    }
}

/// The value of a little-endian byte string.
pub open spec fn le_val(s: Seq<u8>) -> nat
    decreases s.len(),
{
    if s.len() == 0 {
        0
    } else {
        s[0] as nat + 256 * le_val(s.drop_first())
    }
}

/// How many bytes the value needs: the least `n >= 1` with `v < 256^n`.
pub open spec fn uint_len(v: nat) -> nat
    decreases v,
{
    if v < 256 {
        1
    } else {
        proof {
            lemma_div_bounds(v as int, 256);
        }
        1 + uint_len(v / 256)
    }
}

pub proof fn lemma_div_bounds(v: int, d: int)
    by (nonlinear_arith)
    requires
        v >= 0,
        d >= 2,
    ensures
        v / d >= 0,
        v >= d ==> v / d < v,
        v < d ==> v / d == 0,
{
}

/// The wire bytes of the unsigned varint encoding of `v`.
pub open spec fn uint_wire(v: u64) -> Seq<u8> {
    if v <= 247 {
        seq![v as u8]
    } else {
        seq![(247 + uint_len(v as nat)) as u8] + le_seq(v as nat, uint_len(v as nat))
    }
}

/// Decoding an unsigned varint from `s` at position `i`: the value and the
/// position after it, or `None` when the buffer ends too early.
pub open spec fn uint_dec(s: Seq<u8>, i: int) -> Option<(u64, int)> {
    if !(0 <= i < s.len()) {
        None
    } else {
        let h = s[i];
        if h <= 247 {
            Some((h as u64, i + 1))
        } else {
            let n = h - 247;
            if i + 1 + n <= s.len() {
                Some(((le_val(s.subrange(i + 1, i + 1 + n)) % pow256(8)) as u64, i + 1 + n))
            } else {
                None
            }
        }
    }
}

pub proof fn lemma_pow256_pos(n: nat)
    ensures
        pow256(n) >= 1,
    decreases n,
{
    if n > 0 {
        lemma_pow256_pos((n - 1) as nat);
    }
}

pub proof fn lemma_pow256_mono(m: nat, n: nat)
    requires
        m <= n,
    ensures
        pow256(m) <= pow256(n),
    decreases n,
{
    if m < n {
        lemma_pow256_mono(m, (n - 1) as nat);
        lemma_pow256_pos((n - 1) as nat);
    }
}

pub proof fn lemma_pow256_8()
    ensures
        pow256(8) == 0x1_0000_0000_0000_0000,
{
    reveal_with_fuel(pow256, 9);
    assert(pow256(8) == 0x1_0000_0000_0000_0000);
}

/// A little-endian byte string's value is below 256^length.
pub proof fn lemma_le_val_bound(s: Seq<u8>)
    ensures
        le_val(s) < pow256(s.len() as nat),
    decreases s.len(),
{
    if s.len() == 0 {
    } else {
        lemma_le_val_bound(s.drop_first());
        assert(le_val(s) == s[0] + 256 * le_val(s.drop_first()));
        assert(256 * le_val(s.drop_first()) <= 256 * (pow256((s.len() - 1) as nat) - 1))
            by (nonlinear_arith)
            requires
                le_val(s.drop_first()) <= pow256((s.len() - 1) as nat) - 1,
        ;
    }
}

/// Reading back the `n` little-endian bytes of `v` gives `v mod 256^n`.
pub proof fn lemma_le_seq_val(v: nat, n: nat)
    ensures
        le_seq(v, n).len() == n,
        le_val(le_seq(v, n)) == v % pow256(n),
    decreases n,
{
    if n == 0 {
        lemma_small_mod_one(v);
    } else {
        lemma_le_seq_val(v / 256, (n - 1) as nat);
        let s = le_seq(v, n);
        assert(s.drop_first() =~= le_seq(v / 256, (n - 1) as nat));
        let p = pow256((n - 1) as nat);
        lemma_pow256_pos((n - 1) as nat);
        assert(le_val(s) == v % 256 + 256 * ((v / 256) % p));
        lemma_mod_factor(v as int, p as int);
        assert(pow256(n) == 256 * p);
    }
}

proof fn lemma_small_mod_one(v: nat)
    by (nonlinear_arith)
    ensures
        v % 1 == 0,
{
}

/// `v mod 256p == (v mod 256) + 256 (v/256 mod p)`.
proof fn lemma_mod_factor(v: int, p: int)
    by (nonlinear_arith)
    requires
        v >= 0,
        p >= 1,
    ensures
        v % (256 * p) == v % 256 + 256 * ((v / 256) % p),
{
    lemma_fundamental_div_mod(v, 256);
    lemma_fundamental_div_mod(v / 256, p);
    lemma_mod_division_less_than_divisor(v, 256);
    lemma_mod_division_less_than_divisor(v / 256, p);
    let q = (v / 256) / p;
    let r = v % 256 + 256 * ((v / 256) % p);
    assert(v == (256 * p) * q + r);
    assert(0 <= r < 256 * p);
    vstd::arithmetic::div_mod::lemma_fundamental_div_mod_converse_mod(v, 256 * p, q, r);
}

/// The value fits in its own byte count: `v < 256^uint_len(v)`, and the byte
/// count is minimal, so the leading byte of `le_seq(v, uint_len(v))` is
/// nonzero for `v >= 256`.
pub proof fn lemma_uint_len_bound(v: nat)
    ensures
        1 <= uint_len(v),
        v < pow256(uint_len(v)),
        uint_len(v) > 1 ==> v >= pow256((uint_len(v) - 1) as nat),
    decreases v,
{
    if v < 256 {
    } else {
        lemma_div_bounds(v as int, 256);
        lemma_uint_len_bound(v / 256);
        let m = uint_len(v / 256);
        assert(v / 256 < pow256(m));
        assert(v < 256 * pow256(m)) by (nonlinear_arith)
            requires
                v / 256 < pow256(m),
                v >= 0,
        ;
        assert(pow256((1 + m) as nat) == 256 * pow256(m));
        if m > 1 {
            assert(v / 256 >= pow256((m - 1) as nat));
            assert(v >= 256 * pow256((m - 1) as nat)) by (nonlinear_arith)
                requires
                    v / 256 >= pow256((m - 1) as nat),
                    v >= 0,
            ;
        } else {
            assert(v >= 256);
            assert(pow256(1) == 256);
        }
    }
}

/// A `u64` needs at most eight bytes.
pub proof fn lemma_uint_len_le_8(v: u64)
    ensures
        uint_len(v as nat) <= 8,
{
    lemma_uint_len_bound(v as nat);
    lemma_pow256_8();
    if uint_len(v as nat) > 8 {
        lemma_pow256_mono(8, (uint_len(v as nat) - 1) as nat);
    }
}

/// Decoding right after encoding yields the value back, wherever the
/// encoding sits in a larger buffer.
pub proof fn lemma_uint_wire_dec(v: u64, s: Seq<u8>, i: int)
    requires
        0 <= i,
        i + uint_wire(v).len() <= s.len(),
        s.subrange(i, i + uint_wire(v).len() as int) == uint_wire(v),
    ensures
        uint_dec(s, i) == Some((v, i + uint_wire(v).len() as int)),
{
    let w = uint_wire(v);
    assert(s[i] == w[0]);
    if v <= 247 {
        assert(uint_dec(s, i) == Some((v, i + 1)));
    } else {
        let n = uint_len(v as nat);
        lemma_uint_len_le_8(v);
        lemma_uint_len_bound(v as nat);
        lemma_le_seq_val(v as nat, n);
        assert(w.len() == 1 + n);
        assert(w[0] == 247 + n);
        assert(s[i] > 247);
        let m = (s[i] - 247) as nat;
        assert(m == n);
        assert(s.subrange(i + 1, i + 1 + n as int) =~= w.subrange(1, 1 + n as int));
        assert(w.subrange(1, 1 + n as int) =~= le_seq(v as nat, n));
        lemma_le_seq_val(v as nat, n);
        lemma_pow256_mono(n, 8);
        lemma_pow256_8();
        vstd::arithmetic::div_mod::lemma_small_mod(v as nat, pow256(n));
        vstd::arithmetic::div_mod::lemma_small_mod(v as nat, pow256(8));
    }
}

/// Encode `value` onto the end of `out`.
pub fn encode(value: u64, out: &mut Vec<u8>)
    ensures
        final(out)@ == old(out)@ + uint_wire(value),
{
    if value <= 247 {
        out.push(value as u8);
        assert(final(out)@ =~= old(out)@ + uint_wire(value));
        return ;
    }
    let ghost n_spec = uint_len(value as nat);
    proof {
        lemma_uint_len_le_8(value);
    }
    let mut n: usize = 0;
    let mut x: u64 = value;
    while x > 0
        invariant
            x > 0 ==> uint_len(value as nat) == n + uint_len(x as nat),
            x == 0 ==> uint_len(value as nat) == n,
            n <= 8,
        decreases x,
    {
        proof {
            lemma_uint_len_le_8(value);
            lemma_div_bounds(x as int, 256);
            if x >= 256 {
                lemma_uint_len_bound((x / 256) as nat);
            }
        }
        x = x / 256;
        n = n + 1;
    }
    out.push(247 + n as u8);
    let ghost head = out@;
    assert(head =~= old(out)@ + seq![(247 + n_spec) as u8]);
    let mut y: u64 = value;
    let mut j: usize = 0;
    while j < n
        invariant
            j <= n,
            n == uint_len(value as nat),
            out@ + le_seq(y as nat, (n - j) as nat) == head + le_seq(value as nat, n as nat),
        decreases n - j,
    {
        let b: u8 = (y % 256) as u8;
        proof {
            let m = (n - j) as nat;
            assert(le_seq(y as nat, m) == seq![(y as nat % 256) as u8] + le_seq(
                y as nat / 256,
                (m - 1) as nat,
            ));
            assert((y as nat % 256) as u8 == b);
            assert((y as nat / 256) == (y / 256) as nat);
            assert(out@.push(b) + le_seq((y / 256) as nat, (m - 1) as nat) =~= out@ + le_seq(
                y as nat,
                m,
            ));
        }
        out.push(b);
        y = y / 256;
        j = j + 1;
    }
    assert(le_seq(y as nat, 0) =~= Seq::<u8>::empty());
    assert(out@ =~= out@ + le_seq(y as nat, 0));
    assert(final(out)@ =~= old(out)@ + uint_wire(value));
}

/// Decode an unsigned varint at the cursor. On failure the cursor stays
/// put and the error is an unexpected end of input at the cursor.
pub fn decode(bytes: &mut Bytes<'_>) -> (r: Result<u64, DecodingError>)
    requires
        old(bytes).wf(),
    ensures
        final(bytes).wf(),
        final(bytes).data() == old(bytes).data(),
        match r {
            Ok(v) => uint_dec(old(bytes).data(), old(bytes).pos()) == Some(
                (v, final(bytes).pos()),
            ),
            Err(e) => {
                &&& uint_dec(old(bytes).data(), old(bytes).pos()) is None
                &&& final(bytes).pos() == old(bytes).pos()
                &&& e == eof(old(bytes).pos())
            },
        },
{
    let ghost s = old(bytes).data();
    let ghost i = old(bytes).pos();
    let small = match bytes.first() {
        Some(b) => b,
        None => {
            return Err(DecodingError::eof_at(bytes.mark().to_usize()));
        },
    };
    if small <= 247 {
        bytes.consume(1);
        return Ok(small as u64);
    }
    let n: usize = (small - 247) as usize;
    if bytes.remaining_len() < 1 + n {
        return Err(DecodingError::eof_at(bytes.mark().to_usize()));
    }
    bytes.consume(1);
    let slice = match bytes.consume_bytes(n) {
        Some(sl) => sl,
        None => {
            proof {
                assert(false);
            }
            return Err(DecodingError::eof_at(bytes.mark().to_usize()));
        },
    };
    let ghost window = s.subrange(i + 1, i + 1 + n);
    assert(slice@ =~= window);
    let mut val: u64 = 0;
    let mut k: usize = n;
    proof {
        assert(window.subrange(n as int, n as int) =~= Seq::<u8>::empty());
    }
    while k > 0
        invariant
            k <= n,
            n <= 8,
            slice@ == window,
            window.len() == n,
            val == le_val(window.subrange(k as int, n as int)),
        decreases k,
    {
        let ghost tail = window.subrange(k as int, n as int);
        proof {
            lemma_le_val_bound(tail);
            lemma_pow256_mono(tail.len() as nat, 7);
            reveal_with_fuel(pow256, 9);
            assert(pow256(7) == 0x100_0000_0000_0000);
            let next = window.subrange(k - 1, n as int);
            assert(next.drop_first() =~= tail);
            assert(le_val(next) == next[0] + 256 * le_val(tail));
        }
        k = k - 1;
        val = val * 256 + (slice[k] as u64);
    }
    proof {
        assert(window.subrange(0, n as int) =~= window);
        lemma_le_val_bound(window);
        lemma_pow256_mono(window.len() as nat, 8);
        lemma_pow256_8();
        vstd::arithmetic::div_mod::lemma_small_mod(le_val(window), pow256(8));
    }
    Ok(val)
}

/// Recognize an unsigned varint: advance exactly as `decode` would, handing
/// back the consumed window instead of the value.
pub fn recognize<'a>(bytes: &mut Bytes<'a>) -> (r: Result<ByteSlice<'a, u64>, DecodingError>)
    requires
        old(bytes).wf(),
    ensures
        final(bytes).wf(),
        final(bytes).data() == old(bytes).data(),
        match r {
            Ok(w) => {
                &&& uint_dec(old(bytes).data(), old(bytes).pos()) matches Some((_, j))
                    && final(bytes).pos() == j
                &&& w.bytes() == old(bytes).data().subrange(old(bytes).pos(), final(bytes).pos())
                &&& w.offset() == old(bytes).pos()
            },
            Err(e) => {
                &&& uint_dec(old(bytes).data(), old(bytes).pos()) is None
                &&& final(bytes).pos() == old(bytes).pos()
                &&& e == eof(old(bytes).pos())
            },
        },
{
    let small = match bytes.first() {
        Some(b) => b,
        None => {
            return Err(DecodingError::eof_at(bytes.mark().to_usize()));
        },
    };
    if small <= 247 {
        match bytes.consume_slice(1) {
            Some(w) => {
                return Ok(w);
            },
            None => {
                proof {
                    assert(false);
                }
                return Err(DecodingError::eof_at(bytes.mark().to_usize()));
            },
        }
    }
    let n: usize = (small - 247) as usize;
    match bytes.consume_slice(1 + n) {
        Some(w) => Ok(w),
        None => Err(DecodingError::eof_at(bytes.mark().to_usize())),
    }
}

/// A successful decode depends only on the bytes it consumed: the same
/// bytes at any position of any buffer decode to the same value.
pub proof fn lemma_uint_dec_frame(s: Seq<u8>, i: int, t: Seq<u8>, k: int)
    requires
        0 <= i <= s.len(),
        0 <= k,
        uint_dec(s, i) is Some,
        k + (uint_dec(s, i)->Some_0.1 - i) <= t.len(),
        t.subrange(k, k + (uint_dec(s, i)->Some_0.1 - i)) == s.subrange(
            i,
            uint_dec(s, i)->Some_0.1,
        ),
    ensures
        uint_dec(t, k) == Some((uint_dec(s, i)->Some_0.0, k + (uint_dec(s, i)->Some_0.1 - i))),
{
    let (v, e) = uint_dec(s, i)->Some_0;
    let w = s.subrange(i, e);
    assert(t[k] == w[0]);
    assert(w[0] == s[i]);
    if s[i] > 247 {
        let n = s[i] - 247;
        assert(t.subrange(k + 1, k + 1 + n) =~= s.subrange(i + 1, i + 1 + n)) by {
            assert forall|x: int| 0 <= x < n implies #[trigger] t.subrange(k + 1, k + 1 + n)[x]
                == s.subrange(i + 1, i + 1 + n)[x] by {
                assert(t[k + 1 + x] == t.subrange(k, k + (e - i))[1 + x]);
                assert(s[i + 1 + x] == s.subrange(i, e)[1 + x]);
            }
        }
    }
}

} // verus!

//! The codec implementations for the built-in primitives: fixed-width
//! integers (raw little-endian bytes), booleans (one byte each, packed
//! bitmaps in bulk) and strings (varint byte length, then UTF-8 bytes).

use vstd::arithmetic::power2::pow2;
use vstd::prelude::*;
use vstd::utf8::{decode_utf8, encode_utf8, valid_utf8};

use crate::base::boolean::{
    self, bit_of, bits_of, bool_dec, bool_wire, bool_wire_n, lemma_bool_wire_bits,
    spec_byte_size,
};
use crate::base::uint::{
    self, le_seq, le_val, lemma_le_seq_val, lemma_uint_dec_frame, lemma_uint_wire_dec, pow256,
    uint_dec, uint_wire,
};
use crate::bytes::{ByteSlice, Bytes};
use crate::errors::{eof, invalid_prefix, value_error, DecodingError};
use crate::imp::fixed::{
    self, decode_le, encode_le, fixed_dec, lemma_fixed_fits, lemma_fixed_wire_dec,
    lemma_pow256_values,
};
use crate::traits::{
    dec_iter, dec_iter_err, decode_each, encode_each, lemma_dec_iter_frame,
    lemma_dec_iter_in_range, lemma_iter_wire_dec, lemma_rec_iter_covers, rec_iter, rec_iter_err,
    recognize_each, views_of, wire_iter, Decodable, Encodable, WireDecode, WireEncode,
};
use vstd::string::StringSliceAdditionalSpecFns;

verus! {

/// u8 travels as its raw 1 little-endian bytes.
impl WireEncode for u8 {
    open spec fn wire(&self) -> Seq<u8> {
        le_seq(*self as nat, 1)
    }

    open spec fn wf_value(&self) -> bool {
        true
    }

    fn encode(&self, out: &mut Vec<u8>) {
        encode_le(*self as u64, 1, out);
    }
}

impl Encodable for u8 {
    open spec fn wire_n(values: Seq<u8>) -> Seq<u8> {
        wire_iter(values)
    }

    fn encode_many(values: &[u8], out: &mut Vec<u8>) {
        encode_each(values, out);
    }
}

impl WireDecode for u8 {
    open spec fn dec(s: Seq<u8>, i: int) -> Option<(u8, int)> {
        match fixed_dec(s, i, 1) {
            Some((v, j)) => Some(((v % pow256(1)) as u8, j)),
            None => None,
        }
    }

    open spec fn dec_err(s: Seq<u8>, i: int) -> DecodingError {
        eof(i)
    }

    open spec fn rec(s: Seq<u8>, i: int) -> Option<int> {
        match fixed_dec(s, i, 1) {
            Some((_, j)) => Some(j),
            None => None,
        }
    }

    open spec fn rec_err(s: Seq<u8>, i: int) -> DecodingError {
        eof(i)
    }

    open spec fn rt() -> bool {
        true
    }

    open spec fn rec_exact() -> bool {
        true
    }

    open spec fn dec_progress() -> bool {
        true
    }

    fn decode(bytes: &mut Bytes<'_>, _buf: &mut Vec<u8>) -> Result<u8, DecodingError> {
        match decode_le(bytes, 1) {
            Ok(v) => {
                proof {
                    lemma_fixed_fits(old(bytes).data(), old(bytes).pos(), 1);
                    lemma_pow256_values();
                    vstd::arithmetic::div_mod::lemma_small_mod(v as nat, pow256(1));
                }
                Ok(v as u8)
            },
            Err(e) => Err(e),
        }
    }

    fn recognize<'a>(bytes: &mut Bytes<'a>, _buf: &mut Vec<u8>) -> Result<
        ByteSlice<'a, u8>,
        DecodingError,
    > {
        match bytes.consume_slice(1) {
            Some(w) => Ok(w),
            None => Err(DecodingError::eof_at(bytes.mark().to_usize())),
        }
    }

    proof fn lemma_dec_in_range(s: Seq<u8>, i: int) {
    }

    proof fn lemma_dec_progress(s: Seq<u8>, i: int) {
    }

    proof fn lemma_wire_dec(&self, s: Seq<u8>, i: int) {
        lemma_pow256_values();
        lemma_le_seq_val(*self as nat, 1);
        lemma_fixed_wire_dec(*self as nat, 1, s, i);
        vstd::arithmetic::div_mod::lemma_small_mod(*self as nat, pow256(1));
    }

    proof fn lemma_rec_covers(s: Seq<u8>, i: int) {
    }

    proof fn lemma_dec_frame(s: Seq<u8>, i: int, t: Seq<u8>, k: int) {
        assert(t.subrange(k, k + 1) =~= s.subrange(i, i + 1));
    }
}

impl Decodable for u8 {
    open spec fn dec_n(s: Seq<u8>, i: int, n: nat) -> Option<(Seq<u8>, int)> {
        dec_iter::<u8>(s, i, n)
    }

    open spec fn dec_n_err(s: Seq<u8>, i: int, n: nat) -> DecodingError {
        dec_iter_err::<u8>(s, i, n)
    }

    open spec fn rec_n(s: Seq<u8>, i: int, n: nat) -> Option<int> {
        rec_iter::<u8>(s, i, n)
    }

    open spec fn rec_n_err(s: Seq<u8>, i: int, n: nat) -> DecodingError {
        rec_iter_err::<u8>(s, i, n)
    }

    fn decode_many(
        bytes: &mut Bytes<'_>,
        buf: &mut Vec<u8>,
        n: usize,
        values: &mut Vec<u8>,
    ) -> Result<(), DecodingError> {
        decode_each(bytes, buf, n, values)
    }

    fn recognize_many<'a>(bytes: &mut Bytes<'a>, buf: &mut Vec<u8>, n: usize) -> Result<
        ByteSlice<'a, u8>,
        DecodingError,
    > {
        recognize_each(bytes, buf, n)
    }

    proof fn lemma_wire_dec_n(values: Seq<u8>, s: Seq<u8>, i: int) {
        lemma_iter_wire_dec::<u8>(values, s, i);
    }

    proof fn lemma_dec_n_in_range(s: Seq<u8>, i: int, n: nat) {
        lemma_dec_iter_in_range::<u8>(s, i, n);
    }

    proof fn lemma_dec_n_frame(s: Seq<u8>, i: int, t: Seq<u8>, k: int, n: nat) {
        lemma_dec_iter_frame::<u8>(s, i, t, k, n);
    }

    proof fn lemma_rec_covers_n(s: Seq<u8>, i: int, n: nat) {
        lemma_rec_iter_covers::<u8>(s, i, n);
    }
}

/// u16 travels as its raw 2 little-endian bytes.
impl WireEncode for u16 {
    open spec fn wire(&self) -> Seq<u8> {
        le_seq(*self as nat, 2)
    }

    open spec fn wf_value(&self) -> bool {
        true
    }

    fn encode(&self, out: &mut Vec<u8>) {
        encode_le(*self as u64, 2, out);
    }
}

impl Encodable for u16 {
    open spec fn wire_n(values: Seq<u16>) -> Seq<u8> {
        wire_iter(values)
    }

    fn encode_many(values: &[u16], out: &mut Vec<u8>) {
        encode_each(values, out);
    }
}

impl WireDecode for u16 {
    open spec fn dec(s: Seq<u8>, i: int) -> Option<(u16, int)> {
        match fixed_dec(s, i, 2) {
            Some((v, j)) => Some(((v % pow256(2)) as u16, j)),
            None => None,
        }
    }

    open spec fn dec_err(s: Seq<u8>, i: int) -> DecodingError {
        eof(i)
    }

    open spec fn rec(s: Seq<u8>, i: int) -> Option<int> {
        match fixed_dec(s, i, 2) {
            Some((_, j)) => Some(j),
            None => None,
        }
    }

    open spec fn rec_err(s: Seq<u8>, i: int) -> DecodingError {
        eof(i)
    }

    open spec fn rt() -> bool {
        true
    }

    open spec fn rec_exact() -> bool {
        true
    }

    open spec fn dec_progress() -> bool {
        true
    }

    fn decode(bytes: &mut Bytes<'_>, _buf: &mut Vec<u8>) -> Result<u16, DecodingError> {
        match decode_le(bytes, 2) {
            Ok(v) => {
                proof {
                    lemma_fixed_fits(old(bytes).data(), old(bytes).pos(), 2);
                    lemma_pow256_values();
                    vstd::arithmetic::div_mod::lemma_small_mod(v as nat, pow256(2));
                }
                Ok(v as u16)
            },
            Err(e) => Err(e),
        }
    }

    fn recognize<'a>(bytes: &mut Bytes<'a>, _buf: &mut Vec<u8>) -> Result<
        ByteSlice<'a, u16>,
        DecodingError,
    > {
        match bytes.consume_slice(2) {
            Some(w) => Ok(w),
            None => Err(DecodingError::eof_at(bytes.mark().to_usize())),
        }
    }

    proof fn lemma_dec_in_range(s: Seq<u8>, i: int) {
    }

    proof fn lemma_dec_progress(s: Seq<u8>, i: int) {
    }

    proof fn lemma_wire_dec(&self, s: Seq<u8>, i: int) {
        lemma_pow256_values();
        lemma_le_seq_val(*self as nat, 2);
        lemma_fixed_wire_dec(*self as nat, 2, s, i);
        vstd::arithmetic::div_mod::lemma_small_mod(*self as nat, pow256(2));
    }

    proof fn lemma_rec_covers(s: Seq<u8>, i: int) {
    }

    proof fn lemma_dec_frame(s: Seq<u8>, i: int, t: Seq<u8>, k: int) {
        assert(t.subrange(k, k + 2) =~= s.subrange(i, i + 2));
    }
}

impl Decodable for u16 {
    open spec fn dec_n(s: Seq<u8>, i: int, n: nat) -> Option<(Seq<u16>, int)> {
        dec_iter::<u16>(s, i, n)
    }

    open spec fn dec_n_err(s: Seq<u8>, i: int, n: nat) -> DecodingError {
        dec_iter_err::<u16>(s, i, n)
    }

    open spec fn rec_n(s: Seq<u8>, i: int, n: nat) -> Option<int> {
        rec_iter::<u16>(s, i, n)
    }

    open spec fn rec_n_err(s: Seq<u8>, i: int, n: nat) -> DecodingError {
        rec_iter_err::<u16>(s, i, n)
    }

    fn decode_many(
        bytes: &mut Bytes<'_>,
        buf: &mut Vec<u8>,
        n: usize,
        values: &mut Vec<u16>,
    ) -> Result<(), DecodingError> {
        decode_each(bytes, buf, n, values)
    }

    fn recognize_many<'a>(bytes: &mut Bytes<'a>, buf: &mut Vec<u8>, n: usize) -> Result<
        ByteSlice<'a, u16>,
        DecodingError,
    > {
        recognize_each(bytes, buf, n)
    }

    proof fn lemma_wire_dec_n(values: Seq<u16>, s: Seq<u8>, i: int) {
        lemma_iter_wire_dec::<u16>(values, s, i);
    }

    proof fn lemma_dec_n_in_range(s: Seq<u8>, i: int, n: nat) {
        lemma_dec_iter_in_range::<u16>(s, i, n);
    }

    proof fn lemma_dec_n_frame(s: Seq<u8>, i: int, t: Seq<u8>, k: int, n: nat) {
        lemma_dec_iter_frame::<u16>(s, i, t, k, n);
    }

    proof fn lemma_rec_covers_n(s: Seq<u8>, i: int, n: nat) {
        lemma_rec_iter_covers::<u16>(s, i, n);
    }
}

/// u32 travels as its raw 4 little-endian bytes.
impl WireEncode for u32 {
    open spec fn wire(&self) -> Seq<u8> {
        le_seq(*self as nat, 4)
    }

    open spec fn wf_value(&self) -> bool {
        true
    }

    fn encode(&self, out: &mut Vec<u8>) {
        encode_le(*self as u64, 4, out);
    }
}

impl Encodable for u32 {
    open spec fn wire_n(values: Seq<u32>) -> Seq<u8> {
        wire_iter(values)
    }

    fn encode_many(values: &[u32], out: &mut Vec<u8>) {
        encode_each(values, out);
    }
}

impl WireDecode for u32 {
    open spec fn dec(s: Seq<u8>, i: int) -> Option<(u32, int)> {
        match fixed_dec(s, i, 4) {
            Some((v, j)) => Some(((v % pow256(4)) as u32, j)),
            None => None,
        }
    }

    open spec fn dec_err(s: Seq<u8>, i: int) -> DecodingError {
        eof(i)
    }

    open spec fn rec(s: Seq<u8>, i: int) -> Option<int> {
        match fixed_dec(s, i, 4) {
            Some((_, j)) => Some(j),
            None => None,
        }
    }

    open spec fn rec_err(s: Seq<u8>, i: int) -> DecodingError {
        eof(i)
    }

    open spec fn rt() -> bool {
        true
    }

    open spec fn rec_exact() -> bool {
        true
    }

    open spec fn dec_progress() -> bool {
        true
    }

    fn decode(bytes: &mut Bytes<'_>, _buf: &mut Vec<u8>) -> Result<u32, DecodingError> {
        match decode_le(bytes, 4) {
            Ok(v) => {
                proof {
                    lemma_fixed_fits(old(bytes).data(), old(bytes).pos(), 4);
                    lemma_pow256_values();
                    vstd::arithmetic::div_mod::lemma_small_mod(v as nat, pow256(4));
                }
                Ok(v as u32)
            },
            Err(e) => Err(e),
        }
    }

    fn recognize<'a>(bytes: &mut Bytes<'a>, _buf: &mut Vec<u8>) -> Result<
        ByteSlice<'a, u32>,
        DecodingError,
    > {
        match bytes.consume_slice(4) {
            Some(w) => Ok(w),
            None => Err(DecodingError::eof_at(bytes.mark().to_usize())),
        }
    }

    proof fn lemma_dec_in_range(s: Seq<u8>, i: int) {
    }

    proof fn lemma_dec_progress(s: Seq<u8>, i: int) {
    }

    proof fn lemma_wire_dec(&self, s: Seq<u8>, i: int) {
        lemma_pow256_values();
        lemma_le_seq_val(*self as nat, 4);
        lemma_fixed_wire_dec(*self as nat, 4, s, i);
        vstd::arithmetic::div_mod::lemma_small_mod(*self as nat, pow256(4));
    }

    proof fn lemma_rec_covers(s: Seq<u8>, i: int) {
    }

    proof fn lemma_dec_frame(s: Seq<u8>, i: int, t: Seq<u8>, k: int) {
        assert(t.subrange(k, k + 4) =~= s.subrange(i, i + 4));
    }
}

impl Decodable for u32 {
    open spec fn dec_n(s: Seq<u8>, i: int, n: nat) -> Option<(Seq<u32>, int)> {
        dec_iter::<u32>(s, i, n)
    }

    open spec fn dec_n_err(s: Seq<u8>, i: int, n: nat) -> DecodingError {
        dec_iter_err::<u32>(s, i, n)
    }

    open spec fn rec_n(s: Seq<u8>, i: int, n: nat) -> Option<int> {
        rec_iter::<u32>(s, i, n)
    }

    open spec fn rec_n_err(s: Seq<u8>, i: int, n: nat) -> DecodingError {
        rec_iter_err::<u32>(s, i, n)
    }

    fn decode_many(
        bytes: &mut Bytes<'_>,
        buf: &mut Vec<u8>,
        n: usize,
        values: &mut Vec<u32>,
    ) -> Result<(), DecodingError> {
        decode_each(bytes, buf, n, values)
    }

    fn recognize_many<'a>(bytes: &mut Bytes<'a>, buf: &mut Vec<u8>, n: usize) -> Result<
        ByteSlice<'a, u32>,
        DecodingError,
    > {
        recognize_each(bytes, buf, n)
    }

    proof fn lemma_wire_dec_n(values: Seq<u32>, s: Seq<u8>, i: int) {
        lemma_iter_wire_dec::<u32>(values, s, i);
    }

    proof fn lemma_dec_n_in_range(s: Seq<u8>, i: int, n: nat) {
        lemma_dec_iter_in_range::<u32>(s, i, n);
    }

    proof fn lemma_dec_n_frame(s: Seq<u8>, i: int, t: Seq<u8>, k: int, n: nat) {
        lemma_dec_iter_frame::<u32>(s, i, t, k, n);
    }

    proof fn lemma_rec_covers_n(s: Seq<u8>, i: int, n: nat) {
        lemma_rec_iter_covers::<u32>(s, i, n);
    }
}

/// u64 travels as its raw 8 little-endian bytes.
impl WireEncode for u64 {
    open spec fn wire(&self) -> Seq<u8> {
        le_seq(*self as nat, 8)
    }

    open spec fn wf_value(&self) -> bool {
        true
    }

    fn encode(&self, out: &mut Vec<u8>) {
        encode_le(*self as u64, 8, out);
    }
}

impl Encodable for u64 {
    open spec fn wire_n(values: Seq<u64>) -> Seq<u8> {
        wire_iter(values)
    }

    fn encode_many(values: &[u64], out: &mut Vec<u8>) {
        encode_each(values, out);
    }
}

impl WireDecode for u64 {
    open spec fn dec(s: Seq<u8>, i: int) -> Option<(u64, int)> {
        match fixed_dec(s, i, 8) {
            Some((v, j)) => Some(((v % pow256(8)) as u64, j)),
            None => None,
        }
    }

    open spec fn dec_err(s: Seq<u8>, i: int) -> DecodingError {
        eof(i)
    }

    open spec fn rec(s: Seq<u8>, i: int) -> Option<int> {
        match fixed_dec(s, i, 8) {
            Some((_, j)) => Some(j),
            None => None,
        }
    }

    open spec fn rec_err(s: Seq<u8>, i: int) -> DecodingError {
        eof(i)
    }

    open spec fn rt() -> bool {
        true
    }

    open spec fn rec_exact() -> bool {
        true
    }

    open spec fn dec_progress() -> bool {
        true
    }

    fn decode(bytes: &mut Bytes<'_>, _buf: &mut Vec<u8>) -> Result<u64, DecodingError> {
        match decode_le(bytes, 8) {
            Ok(v) => {
                proof {
                    lemma_fixed_fits(old(bytes).data(), old(bytes).pos(), 8);
                    lemma_pow256_values();
                    vstd::arithmetic::div_mod::lemma_small_mod(v as nat, pow256(8));
                }
                Ok(v as u64)
            },
            Err(e) => Err(e),
        }
    }

    fn recognize<'a>(bytes: &mut Bytes<'a>, _buf: &mut Vec<u8>) -> Result<
        ByteSlice<'a, u64>,
        DecodingError,
    > {
        match bytes.consume_slice(8) {
            Some(w) => Ok(w),
            None => Err(DecodingError::eof_at(bytes.mark().to_usize())),
        }
    }

    proof fn lemma_dec_in_range(s: Seq<u8>, i: int) {
    }

    proof fn lemma_dec_progress(s: Seq<u8>, i: int) {
    }

    proof fn lemma_wire_dec(&self, s: Seq<u8>, i: int) {
        lemma_pow256_values();
        lemma_le_seq_val(*self as nat, 8);
        lemma_fixed_wire_dec(*self as nat, 8, s, i);
        vstd::arithmetic::div_mod::lemma_small_mod(*self as nat, pow256(8));
    }

    proof fn lemma_rec_covers(s: Seq<u8>, i: int) {
    }

    proof fn lemma_dec_frame(s: Seq<u8>, i: int, t: Seq<u8>, k: int) {
        assert(t.subrange(k, k + 8) =~= s.subrange(i, i + 8));
    }
}

impl Decodable for u64 {
    open spec fn dec_n(s: Seq<u8>, i: int, n: nat) -> Option<(Seq<u64>, int)> {
        dec_iter::<u64>(s, i, n)
    }

    open spec fn dec_n_err(s: Seq<u8>, i: int, n: nat) -> DecodingError {
        dec_iter_err::<u64>(s, i, n)
    }

    open spec fn rec_n(s: Seq<u8>, i: int, n: nat) -> Option<int> {
        rec_iter::<u64>(s, i, n)
    }

    open spec fn rec_n_err(s: Seq<u8>, i: int, n: nat) -> DecodingError {
        rec_iter_err::<u64>(s, i, n)
    }

    fn decode_many(
        bytes: &mut Bytes<'_>,
        buf: &mut Vec<u8>,
        n: usize,
        values: &mut Vec<u64>,
    ) -> Result<(), DecodingError> {
        decode_each(bytes, buf, n, values)
    }

    fn recognize_many<'a>(bytes: &mut Bytes<'a>, buf: &mut Vec<u8>, n: usize) -> Result<
        ByteSlice<'a, u64>,
        DecodingError,
    > {
        recognize_each(bytes, buf, n)
    }

    proof fn lemma_wire_dec_n(values: Seq<u64>, s: Seq<u8>, i: int) {
        lemma_iter_wire_dec::<u64>(values, s, i);
    }

    proof fn lemma_dec_n_in_range(s: Seq<u8>, i: int, n: nat) {
        lemma_dec_iter_in_range::<u64>(s, i, n);
    }

    proof fn lemma_dec_n_frame(s: Seq<u8>, i: int, t: Seq<u8>, k: int, n: nat) {
        lemma_dec_iter_frame::<u64>(s, i, t, k, n);
    }

    proof fn lemma_rec_covers_n(s: Seq<u8>, i: int, n: nat) {
        lemma_rec_iter_covers::<u64>(s, i, n);
    }
}

/// i8 travels as the raw 1 little-endian bytes of its two's-complement bits.
impl WireEncode for i8 {
    open spec fn wire(&self) -> Seq<u8> {
        le_seq((*self as u8) as nat, 1)
    }

    open spec fn wf_value(&self) -> bool {
        true
    }

    fn encode(&self, out: &mut Vec<u8>) {
        encode_le((*self as u8) as u64, 1, out);
    }
}

impl Encodable for i8 {
    open spec fn wire_n(values: Seq<i8>) -> Seq<u8> {
        wire_iter(values)
    }

    fn encode_many(values: &[i8], out: &mut Vec<u8>) {
        encode_each(values, out);
    }
}

impl WireDecode for i8 {
    open spec fn dec(s: Seq<u8>, i: int) -> Option<(i8, int)> {
        match fixed_dec(s, i, 1) {
            Some((v, j)) => Some((((v % pow256(1)) as u8) as i8, j)),
            None => None,
        }
    }

    open spec fn dec_err(s: Seq<u8>, i: int) -> DecodingError {
        eof(i)
    }

    open spec fn rec(s: Seq<u8>, i: int) -> Option<int> {
        match fixed_dec(s, i, 1) {
            Some((_, j)) => Some(j),
            None => None,
        }
    }

    open spec fn rec_err(s: Seq<u8>, i: int) -> DecodingError {
        eof(i)
    }

    open spec fn rt() -> bool {
        true
    }

    open spec fn rec_exact() -> bool {
        true
    }

    open spec fn dec_progress() -> bool {
        true
    }

    fn decode(bytes: &mut Bytes<'_>, _buf: &mut Vec<u8>) -> Result<i8, DecodingError> {
        match decode_le(bytes, 1) {
            Ok(v) => {
                proof {
                    lemma_fixed_fits(old(bytes).data(), old(bytes).pos(), 1);
                    lemma_pow256_values();
                    vstd::arithmetic::div_mod::lemma_small_mod(v as nat, pow256(1));
                }
                Ok((v as u8) as i8)
            },
            Err(e) => Err(e),
        }
    }

    fn recognize<'a>(bytes: &mut Bytes<'a>, _buf: &mut Vec<u8>) -> Result<
        ByteSlice<'a, i8>,
        DecodingError,
    > {
        match bytes.consume_slice(1) {
            Some(w) => Ok(w),
            None => Err(DecodingError::eof_at(bytes.mark().to_usize())),
        }
    }

    proof fn lemma_dec_in_range(s: Seq<u8>, i: int) {
    }

    proof fn lemma_dec_progress(s: Seq<u8>, i: int) {
    }

    proof fn lemma_wire_dec(&self, s: Seq<u8>, i: int) {
        lemma_pow256_values();
        assert((((*self as u8) as nat) as u8) as i8 == *self) by (bit_vector);
        let u = (*self as u8) as nat;
        lemma_le_seq_val(u, 1);
        lemma_fixed_wire_dec(u, 1, s, i);
        vstd::arithmetic::div_mod::lemma_small_mod(u, pow256(1));
    }

    proof fn lemma_rec_covers(s: Seq<u8>, i: int) {
    }

    proof fn lemma_dec_frame(s: Seq<u8>, i: int, t: Seq<u8>, k: int) {
        assert(t.subrange(k, k + 1) =~= s.subrange(i, i + 1));
    }
}

impl Decodable for i8 {
    open spec fn dec_n(s: Seq<u8>, i: int, n: nat) -> Option<(Seq<i8>, int)> {
        dec_iter::<i8>(s, i, n)
    }

    open spec fn dec_n_err(s: Seq<u8>, i: int, n: nat) -> DecodingError {
        dec_iter_err::<i8>(s, i, n)
    }

    open spec fn rec_n(s: Seq<u8>, i: int, n: nat) -> Option<int> {
        rec_iter::<i8>(s, i, n)
    }

    open spec fn rec_n_err(s: Seq<u8>, i: int, n: nat) -> DecodingError {
        rec_iter_err::<i8>(s, i, n)
    }

    fn decode_many(
        bytes: &mut Bytes<'_>,
        buf: &mut Vec<u8>,
        n: usize,
        values: &mut Vec<i8>,
    ) -> Result<(), DecodingError> {
        decode_each(bytes, buf, n, values)
    }

    fn recognize_many<'a>(bytes: &mut Bytes<'a>, buf: &mut Vec<u8>, n: usize) -> Result<
        ByteSlice<'a, i8>,
        DecodingError,
    > {
        recognize_each(bytes, buf, n)
    }

    proof fn lemma_wire_dec_n(values: Seq<i8>, s: Seq<u8>, i: int) {
        lemma_iter_wire_dec::<i8>(values, s, i);
    }

    proof fn lemma_dec_n_in_range(s: Seq<u8>, i: int, n: nat) {
        lemma_dec_iter_in_range::<i8>(s, i, n);
    }

    proof fn lemma_dec_n_frame(s: Seq<u8>, i: int, t: Seq<u8>, k: int, n: nat) {
        lemma_dec_iter_frame::<i8>(s, i, t, k, n);
    }

    proof fn lemma_rec_covers_n(s: Seq<u8>, i: int, n: nat) {
        lemma_rec_iter_covers::<i8>(s, i, n);
    }
}

/// i16 travels as the raw 2 little-endian bytes of its two's-complement bits.
impl WireEncode for i16 {
    open spec fn wire(&self) -> Seq<u8> {
        le_seq((*self as u16) as nat, 2)
    }

    open spec fn wf_value(&self) -> bool {
        true
    }

    fn encode(&self, out: &mut Vec<u8>) {
        encode_le((*self as u16) as u64, 2, out);
    }
}

impl Encodable for i16 {
    open spec fn wire_n(values: Seq<i16>) -> Seq<u8> {
        wire_iter(values)
    }

    fn encode_many(values: &[i16], out: &mut Vec<u8>) {
        encode_each(values, out);
    }
}

impl WireDecode for i16 {
    open spec fn dec(s: Seq<u8>, i: int) -> Option<(i16, int)> {
        match fixed_dec(s, i, 2) {
            Some((v, j)) => Some((((v % pow256(2)) as u16) as i16, j)),
            None => None,
        }
    }

    open spec fn dec_err(s: Seq<u8>, i: int) -> DecodingError {
        eof(i)
    }

    open spec fn rec(s: Seq<u8>, i: int) -> Option<int> {
        match fixed_dec(s, i, 2) {
            Some((_, j)) => Some(j),
            None => None,
        }
    }

    open spec fn rec_err(s: Seq<u8>, i: int) -> DecodingError {
        eof(i)
    }

    open spec fn rt() -> bool {
        true
    }

    open spec fn rec_exact() -> bool {
        true
    }

    open spec fn dec_progress() -> bool {
        true
    }

    fn decode(bytes: &mut Bytes<'_>, _buf: &mut Vec<u8>) -> Result<i16, DecodingError> {
        match decode_le(bytes, 2) {
            Ok(v) => {
                proof {
                    lemma_fixed_fits(old(bytes).data(), old(bytes).pos(), 2);
                    lemma_pow256_values();
                    vstd::arithmetic::div_mod::lemma_small_mod(v as nat, pow256(2));
                }
                Ok((v as u16) as i16)
            },
            Err(e) => Err(e),
        }
    }

    fn recognize<'a>(bytes: &mut Bytes<'a>, _buf: &mut Vec<u8>) -> Result<
        ByteSlice<'a, i16>,
        DecodingError,
    > {
        match bytes.consume_slice(2) {
            Some(w) => Ok(w),
            None => Err(DecodingError::eof_at(bytes.mark().to_usize())),
        }
    }

    proof fn lemma_dec_in_range(s: Seq<u8>, i: int) {
    }

    proof fn lemma_dec_progress(s: Seq<u8>, i: int) {
    }

    proof fn lemma_wire_dec(&self, s: Seq<u8>, i: int) {
        lemma_pow256_values();
        assert((((*self as u16) as nat) as u16) as i16 == *self) by (bit_vector);
        let u = (*self as u16) as nat;
        lemma_le_seq_val(u, 2);
        lemma_fixed_wire_dec(u, 2, s, i);
        vstd::arithmetic::div_mod::lemma_small_mod(u, pow256(2));
    }

    proof fn lemma_rec_covers(s: Seq<u8>, i: int) {
    }

    proof fn lemma_dec_frame(s: Seq<u8>, i: int, t: Seq<u8>, k: int) {
        assert(t.subrange(k, k + 2) =~= s.subrange(i, i + 2));
    }
}

impl Decodable for i16 {
    open spec fn dec_n(s: Seq<u8>, i: int, n: nat) -> Option<(Seq<i16>, int)> {
        dec_iter::<i16>(s, i, n)
    }

    open spec fn dec_n_err(s: Seq<u8>, i: int, n: nat) -> DecodingError {
        dec_iter_err::<i16>(s, i, n)
    }

    open spec fn rec_n(s: Seq<u8>, i: int, n: nat) -> Option<int> {
        rec_iter::<i16>(s, i, n)
    }

    open spec fn rec_n_err(s: Seq<u8>, i: int, n: nat) -> DecodingError {
        rec_iter_err::<i16>(s, i, n)
    }

    fn decode_many(
        bytes: &mut Bytes<'_>,
        buf: &mut Vec<u8>,
        n: usize,
        values: &mut Vec<i16>,
    ) -> Result<(), DecodingError> {
        decode_each(bytes, buf, n, values)
    }

    fn recognize_many<'a>(bytes: &mut Bytes<'a>, buf: &mut Vec<u8>, n: usize) -> Result<
        ByteSlice<'a, i16>,
        DecodingError,
    > {
        recognize_each(bytes, buf, n)
    }

    proof fn lemma_wire_dec_n(values: Seq<i16>, s: Seq<u8>, i: int) {
        lemma_iter_wire_dec::<i16>(values, s, i);
    }

    proof fn lemma_dec_n_in_range(s: Seq<u8>, i: int, n: nat) {
        lemma_dec_iter_in_range::<i16>(s, i, n);
    }

    proof fn lemma_dec_n_frame(s: Seq<u8>, i: int, t: Seq<u8>, k: int, n: nat) {
        lemma_dec_iter_frame::<i16>(s, i, t, k, n);
    }

    proof fn lemma_rec_covers_n(s: Seq<u8>, i: int, n: nat) {
        lemma_rec_iter_covers::<i16>(s, i, n);
    }
}

/// i32 travels as the raw 4 little-endian bytes of its two's-complement bits.
impl WireEncode for i32 {
    open spec fn wire(&self) -> Seq<u8> {
        le_seq((*self as u32) as nat, 4)
    }

    open spec fn wf_value(&self) -> bool {
        true
    }

    fn encode(&self, out: &mut Vec<u8>) {
        encode_le((*self as u32) as u64, 4, out);
    }
}

impl Encodable for i32 {
    open spec fn wire_n(values: Seq<i32>) -> Seq<u8> {
        wire_iter(values)
    }

    fn encode_many(values: &[i32], out: &mut Vec<u8>) {
        encode_each(values, out);
    }
}

impl WireDecode for i32 {
    open spec fn dec(s: Seq<u8>, i: int) -> Option<(i32, int)> {
        match fixed_dec(s, i, 4) {
            Some((v, j)) => Some((((v % pow256(4)) as u32) as i32, j)),
            None => None,
        }
    }

    open spec fn dec_err(s: Seq<u8>, i: int) -> DecodingError {
        eof(i)
    }

    open spec fn rec(s: Seq<u8>, i: int) -> Option<int> {
        match fixed_dec(s, i, 4) {
            Some((_, j)) => Some(j),
            None => None,
        }
    }

    open spec fn rec_err(s: Seq<u8>, i: int) -> DecodingError {
        eof(i)
    }

    open spec fn rt() -> bool {
        true
    }

    open spec fn rec_exact() -> bool {
        true
    }

    open spec fn dec_progress() -> bool {
        true
    }

    fn decode(bytes: &mut Bytes<'_>, _buf: &mut Vec<u8>) -> Result<i32, DecodingError> {
        match decode_le(bytes, 4) {
            Ok(v) => {
                proof {
                    lemma_fixed_fits(old(bytes).data(), old(bytes).pos(), 4);
                    lemma_pow256_values();
                    vstd::arithmetic::div_mod::lemma_small_mod(v as nat, pow256(4));
                }
                Ok((v as u32) as i32)
            },
            Err(e) => Err(e),
        }
    }

    fn recognize<'a>(bytes: &mut Bytes<'a>, _buf: &mut Vec<u8>) -> Result<
        ByteSlice<'a, i32>,
        DecodingError,
    > {
        match bytes.consume_slice(4) {
            Some(w) => Ok(w),
            None => Err(DecodingError::eof_at(bytes.mark().to_usize())),
        }
    }

    proof fn lemma_dec_in_range(s: Seq<u8>, i: int) {
    }

    proof fn lemma_dec_progress(s: Seq<u8>, i: int) {
    }

    proof fn lemma_wire_dec(&self, s: Seq<u8>, i: int) {
        lemma_pow256_values();
        assert((((*self as u32) as nat) as u32) as i32 == *self) by (bit_vector);
        let u = (*self as u32) as nat;
        lemma_le_seq_val(u, 4);
        lemma_fixed_wire_dec(u, 4, s, i);
        vstd::arithmetic::div_mod::lemma_small_mod(u, pow256(4));
    }

    proof fn lemma_rec_covers(s: Seq<u8>, i: int) {
    }

    proof fn lemma_dec_frame(s: Seq<u8>, i: int, t: Seq<u8>, k: int) {
        assert(t.subrange(k, k + 4) =~= s.subrange(i, i + 4));
    }
}

impl Decodable for i32 {
    open spec fn dec_n(s: Seq<u8>, i: int, n: nat) -> Option<(Seq<i32>, int)> {
        dec_iter::<i32>(s, i, n)
    }

    open spec fn dec_n_err(s: Seq<u8>, i: int, n: nat) -> DecodingError {
        dec_iter_err::<i32>(s, i, n)
    }

    open spec fn rec_n(s: Seq<u8>, i: int, n: nat) -> Option<int> {
        rec_iter::<i32>(s, i, n)
    }

    open spec fn rec_n_err(s: Seq<u8>, i: int, n: nat) -> DecodingError {
        rec_iter_err::<i32>(s, i, n)
    }

    fn decode_many(
        bytes: &mut Bytes<'_>,
        buf: &mut Vec<u8>,
        n: usize,
        values: &mut Vec<i32>,
    ) -> Result<(), DecodingError> {
        decode_each(bytes, buf, n, values)
    }

    fn recognize_many<'a>(bytes: &mut Bytes<'a>, buf: &mut Vec<u8>, n: usize) -> Result<
        ByteSlice<'a, i32>,
        DecodingError,
    > {
        recognize_each(bytes, buf, n)
    }

    proof fn lemma_wire_dec_n(values: Seq<i32>, s: Seq<u8>, i: int) {
        lemma_iter_wire_dec::<i32>(values, s, i);
    }

    proof fn lemma_dec_n_in_range(s: Seq<u8>, i: int, n: nat) {
        lemma_dec_iter_in_range::<i32>(s, i, n);
    }

    proof fn lemma_dec_n_frame(s: Seq<u8>, i: int, t: Seq<u8>, k: int, n: nat) {
        lemma_dec_iter_frame::<i32>(s, i, t, k, n);
    }

    proof fn lemma_rec_covers_n(s: Seq<u8>, i: int, n: nat) {
        lemma_rec_iter_covers::<i32>(s, i, n);
    }
}

/// i64 travels as the raw 8 little-endian bytes of its two's-complement bits.
impl WireEncode for i64 {
    open spec fn wire(&self) -> Seq<u8> {
        le_seq((*self as u64) as nat, 8)
    }

    open spec fn wf_value(&self) -> bool {
        true
    }

    fn encode(&self, out: &mut Vec<u8>) {
        encode_le((*self as u64) as u64, 8, out);
    }
}

impl Encodable for i64 {
    open spec fn wire_n(values: Seq<i64>) -> Seq<u8> {
        wire_iter(values)
    }

    fn encode_many(values: &[i64], out: &mut Vec<u8>) {
        encode_each(values, out);
    }
}

impl WireDecode for i64 {
    open spec fn dec(s: Seq<u8>, i: int) -> Option<(i64, int)> {
        match fixed_dec(s, i, 8) {
            Some((v, j)) => Some((((v % pow256(8)) as u64) as i64, j)),
            None => None,
        }
    }

    open spec fn dec_err(s: Seq<u8>, i: int) -> DecodingError {
        eof(i)
    }

    open spec fn rec(s: Seq<u8>, i: int) -> Option<int> {
        match fixed_dec(s, i, 8) {
            Some((_, j)) => Some(j),
            None => None,
        }
    }

    open spec fn rec_err(s: Seq<u8>, i: int) -> DecodingError {
        eof(i)
    }

    open spec fn rt() -> bool {
        true
    }

    open spec fn rec_exact() -> bool {
        true
    }

    open spec fn dec_progress() -> bool {
        true
    }

    fn decode(bytes: &mut Bytes<'_>, _buf: &mut Vec<u8>) -> Result<i64, DecodingError> {
        match decode_le(bytes, 8) {
            Ok(v) => {
                proof {
                    lemma_fixed_fits(old(bytes).data(), old(bytes).pos(), 8);
                    lemma_pow256_values();
                    vstd::arithmetic::div_mod::lemma_small_mod(v as nat, pow256(8));
                }
                Ok((v as u64) as i64)
            },
            Err(e) => Err(e),
        }
    }

    fn recognize<'a>(bytes: &mut Bytes<'a>, _buf: &mut Vec<u8>) -> Result<
        ByteSlice<'a, i64>,
        DecodingError,
    > {
        match bytes.consume_slice(8) {
            Some(w) => Ok(w),
            None => Err(DecodingError::eof_at(bytes.mark().to_usize())),
        }
    }

    proof fn lemma_dec_in_range(s: Seq<u8>, i: int) {
    }

    proof fn lemma_dec_progress(s: Seq<u8>, i: int) {
    }

    proof fn lemma_wire_dec(&self, s: Seq<u8>, i: int) {
        lemma_pow256_values();
        assert((((*self as u64) as nat) as u64) as i64 == *self) by (bit_vector);
        let u = (*self as u64) as nat;
        lemma_le_seq_val(u, 8);
        lemma_fixed_wire_dec(u, 8, s, i);
        vstd::arithmetic::div_mod::lemma_small_mod(u, pow256(8));
    }

    proof fn lemma_rec_covers(s: Seq<u8>, i: int) {
    }

    proof fn lemma_dec_frame(s: Seq<u8>, i: int, t: Seq<u8>, k: int) {
        assert(t.subrange(k, k + 8) =~= s.subrange(i, i + 8));
    }
}

impl Decodable for i64 {
    open spec fn dec_n(s: Seq<u8>, i: int, n: nat) -> Option<(Seq<i64>, int)> {
        dec_iter::<i64>(s, i, n)
    }

    open spec fn dec_n_err(s: Seq<u8>, i: int, n: nat) -> DecodingError {
        dec_iter_err::<i64>(s, i, n)
    }

    open spec fn rec_n(s: Seq<u8>, i: int, n: nat) -> Option<int> {
        rec_iter::<i64>(s, i, n)
    }

    open spec fn rec_n_err(s: Seq<u8>, i: int, n: nat) -> DecodingError {
        rec_iter_err::<i64>(s, i, n)
    }

    fn decode_many(
        bytes: &mut Bytes<'_>,
        buf: &mut Vec<u8>,
        n: usize,
        values: &mut Vec<i64>,
    ) -> Result<(), DecodingError> {
        decode_each(bytes, buf, n, values)
    }

    fn recognize_many<'a>(bytes: &mut Bytes<'a>, buf: &mut Vec<u8>, n: usize) -> Result<
        ByteSlice<'a, i64>,
        DecodingError,
    > {
        recognize_each(bytes, buf, n)
    }

    proof fn lemma_wire_dec_n(values: Seq<i64>, s: Seq<u8>, i: int) {
        lemma_iter_wire_dec::<i64>(values, s, i);
    }

    proof fn lemma_dec_n_in_range(s: Seq<u8>, i: int, n: nat) {
        lemma_dec_iter_in_range::<i64>(s, i, n);
    }

    proof fn lemma_dec_n_frame(s: Seq<u8>, i: int, t: Seq<u8>, k: int, n: nat) {
        lemma_dec_iter_frame::<i64>(s, i, t, k, n);
    }

    proof fn lemma_rec_covers_n(s: Seq<u8>, i: int, n: nat) {
        lemma_rec_iter_covers::<i64>(s, i, n);
    }
}


/// A single boolean travels as one byte carrying it in bit 0; a run of
/// booleans packs into a little-endian bitmap.
impl WireEncode for bool {
    open spec fn wire(&self) -> Seq<u8> {
        bool_wire(*self)
    }

    open spec fn wf_value(&self) -> bool {
        true
    }

    fn encode(&self, out: &mut Vec<u8>) {
        boolean::encode(*self, out);
    }
}

impl Encodable for bool {
    open spec fn wire_n(values: Seq<bool>) -> Seq<u8> {
        bool_wire_n(values)
    }

    fn encode_many(values: &[bool], out: &mut Vec<u8>) {
        boolean::encode_many(values, out);
    }
}

impl WireDecode for bool {
    open spec fn dec(s: Seq<u8>, i: int) -> Option<(bool, int)> {
        bool_dec(s, i)
    }

    open spec fn dec_err(s: Seq<u8>, i: int) -> DecodingError {
        eof(i)
    }

    open spec fn rec(s: Seq<u8>, i: int) -> Option<int> {
        match bool_dec(s, i) {
            Some((_, j)) => Some(j),
            None => None,
        }
    }

    open spec fn rec_err(s: Seq<u8>, i: int) -> DecodingError {
        eof(i)
    }

    open spec fn rt() -> bool {
        true
    }

    open spec fn rec_exact() -> bool {
        true
    }

    open spec fn dec_progress() -> bool {
        true
    }

    fn decode(bytes: &mut Bytes<'_>, _buf: &mut Vec<u8>) -> Result<bool, DecodingError> {
        boolean::decode(bytes)
    }

    fn recognize<'a>(bytes: &mut Bytes<'a>, _buf: &mut Vec<u8>) -> Result<
        ByteSlice<'a, bool>,
        DecodingError,
    > {
        boolean::recognize(bytes)
    }

    proof fn lemma_dec_in_range(s: Seq<u8>, i: int) {
    }

    proof fn lemma_dec_progress(s: Seq<u8>, i: int) {
    }

    proof fn lemma_wire_dec(&self, s: Seq<u8>, i: int) {
        assert(s[i] == self.wire()[0]);
    }

    proof fn lemma_rec_covers(s: Seq<u8>, i: int) {
    }

    proof fn lemma_dec_frame(s: Seq<u8>, i: int, t: Seq<u8>, k: int) {
        assert(t[k] == t.subrange(k, k + 1)[0]);
        assert(s[i] == s.subrange(i, i + 1)[0]);
    }
}

impl Decodable for bool {
    open spec fn dec_n(s: Seq<u8>, i: int, n: nat) -> Option<(Seq<bool>, int)> {
        boolean::bool_dec_n(s, i, n)
    }

    open spec fn dec_n_err(s: Seq<u8>, i: int, n: nat) -> DecodingError {
        eof(i)
    }

    open spec fn rec_n(s: Seq<u8>, i: int, n: nat) -> Option<int> {
        boolean::bool_rec_n(s, i, n)
    }

    open spec fn rec_n_err(s: Seq<u8>, i: int, n: nat) -> DecodingError {
        eof(i)
    }

    fn decode_many(
        bytes: &mut Bytes<'_>,
        buf: &mut Vec<u8>,
        n: usize,
        values: &mut Vec<bool>,
    ) -> Result<(), DecodingError> {
        let ghost base = old(values)@.len() as int;
        let r = boolean::decode_many(bytes, n, values);
        proof {
            match r {
                Ok(()) => {
                    assert(values.deep_view() =~= values@);
                    assert(values.deep_view().skip(base) =~= bits_of(
                        old(bytes).data().subrange(old(bytes).pos(), bytes.pos()),
                        n as nat,
                    ));
                    assert(values.deep_view().take(base) =~= old(values).deep_view());
                },
                Err(_) => {
                    assert(values.deep_view() =~= values@);
                    assert(values.deep_view().take(base) =~= old(values).deep_view());
                },
            }
        }
        r
    }

    fn recognize_many<'a>(bytes: &mut Bytes<'a>, buf: &mut Vec<u8>, n: usize) -> Result<
        ByteSlice<'a, bool>,
        DecodingError,
    > {
        boolean::recognize_many(bytes, n)
    }

    proof fn lemma_wire_dec_n(values: Seq<bool>, s: Seq<u8>, i: int) {
        lemma_bool_wire_bits(values);
        let w = bool_wire_n(values);
        let n = values.len() as nat;
        let c = spec_byte_size(n) as int;
        assert(s.subrange(i, i + c) == w);
        assert(views_of(values) =~= values);
        assert(bits_of(s.subrange(i, i + c), n) =~= values) by {
            assert forall|j: int| 0 <= j < n implies #[trigger] bits_of(s.subrange(i, i + c), n)[j]
                == values[j] by {
                assert(bit_of(w, j) == values[j]);
            }
        }
    }

    proof fn lemma_dec_n_in_range(s: Seq<u8>, i: int, n: nat) {
    }

    proof fn lemma_dec_n_frame(s: Seq<u8>, i: int, t: Seq<u8>, k: int, n: nat) {
        let c = spec_byte_size(n) as int;
        assert(t.subrange(k, k + c) =~= s.subrange(i, i + c));
        assert(bits_of(t.subrange(k, k + c), n) =~= bits_of(s.subrange(i, i + c), n));
    }

    proof fn lemma_rec_covers_n(s: Seq<u8>, i: int, n: nat) {
    }
}

/// The uninterpreted length `std::str::from_utf8` reports for the longest
/// valid prefix of an invalid byte string.
pub uninterp spec fn utf8_valid_up_to(s: Seq<u8>) -> int;

/// Relies on std::str::from_utf8: it succeeds exactly on valid UTF-8, the
/// returned string spells the given bytes, and on failure the error's
/// valid_up_to names the end of the longest valid prefix: everything up
/// to it is valid UTF-8, and no longer prefix is.
#[verifier::external_body]
fn utf8_from_bytes<'a>(bytes: &'a [u8]) -> (r: Result<&'a str, usize>)
    ensures
        r is Ok <==> valid_utf8(bytes@),
        r matches Ok(st) ==> st.spec_bytes() == bytes@,
        r matches Err(v) ==> v == utf8_valid_up_to(bytes@) && 0 <= v <= bytes@.len()
            && valid_utf8(bytes@.subrange(0, v as int)) && (forall|j: int|
            v < j <= bytes@.len() ==> !valid_utf8(bytes@.subrange(0, j))),
{
    match std::str::from_utf8(bytes) {
        Ok(s) => Ok(s),
        Err(e) => Err(e.valid_up_to()),
    }
}

/// Append a whole byte slice to the sink.
pub fn push_slice(out: &mut Vec<u8>, bytes: &[u8])
    ensures
        final(out)@ == old(out)@ + bytes@,
{
    let n = bytes.len();
    let mut i: usize = 0;
    while i < n
        invariant
            i <= n,
            n == bytes@.len(),
            out@ == old(out)@ + bytes@.take(i as int),
        decreases n - i,
    {
        proof {
            assert(out@.push(bytes@[i as int]) =~= old(out)@ + bytes@.take(i + 1));
        }
        out.push(bytes[i]);
        i = i + 1;
    }
    assert(bytes@.take(n as int) =~= bytes@);
}

/// The wire bytes of a string: its UTF-8 byte length as an unsigned
/// varint, then its UTF-8 bytes.
pub open spec fn string_wire(cs: Seq<char>) -> Seq<u8> {
    uint_wire(encode_utf8(cs).len() as u64) + encode_utf8(cs)
}

/// Decoding a string from `s` at `i`: the characters the UTF-8 window
/// spells, or nothing when the length header, the window, or the UTF-8
/// validation fails.
pub open spec fn string_dec(s: Seq<u8>, i: int) -> Option<(Seq<char>, int)> {
    match uint_dec(s, i) {
        None => None,
        Some((len, j)) => {
            if j + len <= s.len() {
                if valid_utf8(s.subrange(j, j + len as int)) {
                    Some((decode_utf8(s.subrange(j, j + len as int)), j + len as int))
                } else {
                    None
                }
            } else {
                None
            }
        },
    }
}

/// Which error a failed string decode reports: an unexpected end of
/// input inside the length header or the content, or a value error at
/// the first invalid byte.
pub open spec fn string_dec_err(s: Seq<u8>, i: int) -> DecodingError {
    match uint_dec(s, i) {
        None => eof(i),
        Some((len, j)) => {
            if j + len <= s.len() {
                value_error(j + utf8_valid_up_to(s.subrange(j, j + len as int)))
            } else {
                eof(j)
            }
        },
    }
}

/// Recognizing a string: the length header and the window, with no UTF-8
/// validation.
pub open spec fn string_rec(s: Seq<u8>, i: int) -> Option<int> {
    match uint_dec(s, i) {
        None => None,
        Some((len, j)) => {
            if j + len <= s.len() {
                Some(j + len as int)
            } else {
                None
            }
        },
    }
}

/// Which error a failed string recognition reports.
pub open spec fn string_rec_err(s: Seq<u8>, i: int) -> DecodingError {
    match uint_dec(s, i) {
        None => eof(i),
        Some((_, j)) => eof(j),
    }
}

/// A string travels as its UTF-8 byte length (unsigned varint) followed
/// by its raw UTF-8 bytes. Decoding validates the bytes; recognition only
/// skips them.
impl WireEncode for String {
    open spec fn wire(&self) -> Seq<u8> {
        string_wire(self@)
    }

    open spec fn wf_value(&self) -> bool {
        encode_utf8(self@).len() <= usize::MAX
    }

    fn encode(&self, out: &mut Vec<u8>) {
        let bytes = self.as_str().as_bytes();
        uint::encode(bytes.len() as u64, out);
        push_slice(out, bytes);
    }
}

impl Encodable for String {
    open spec fn wire_n(values: Seq<String>) -> Seq<u8> {
        wire_iter(values)
    }

    fn encode_many(values: &[String], out: &mut Vec<u8>) {
        encode_each(values, out);
    }
}

impl WireDecode for String {
    open spec fn dec(s: Seq<u8>, i: int) -> Option<(Seq<char>, int)> {
        string_dec(s, i)
    }

    open spec fn dec_err(s: Seq<u8>, i: int) -> DecodingError {
        string_dec_err(s, i)
    }

    open spec fn rec(s: Seq<u8>, i: int) -> Option<int> {
        string_rec(s, i)
    }

    open spec fn rec_err(s: Seq<u8>, i: int) -> DecodingError {
        string_rec_err(s, i)
    }

    open spec fn rt() -> bool {
        true
    }

    open spec fn rec_exact() -> bool {
        false
    }

    open spec fn dec_progress() -> bool {
        true
    }

    fn decode(bytes: &mut Bytes<'_>, _buf: &mut Vec<u8>) -> Result<String, DecodingError> {
        let len = match uint::decode(bytes) {
            Ok(l) => l,
            Err(e) => {
                return Err(e);
            },
        };
        if len > bytes.remaining_len() as u64 {
            return Err(DecodingError::eof_at(bytes.mark().to_usize()));
        }
        let ghost j = bytes.pos();
        let mark_here = bytes.mark().to_usize();
        let slice = match bytes.consume_bytes(len as usize) {
            Some(sl) => sl,
            None => {
                proof {
                    assert(false);
                }
                return Err(DecodingError::eof_at(mark_here));
            },
        };
        match utf8_from_bytes(slice) {
            Ok(st) => {
                proof {
                    vstd::utf8::encode_utf8_decode_utf8(st@);
                    vstd::utf8::encode_utf8_valid_utf8(st@);
                }
                Ok(st.to_owned())
            },
            Err(v) => Err(DecodingError::value_error_at(mark_here + v)),
        }
    }

    fn recognize<'a>(bytes: &mut Bytes<'a>, _buf: &mut Vec<u8>) -> Result<
        ByteSlice<'a, String>,
        DecodingError,
    > {
        let mark = bytes.mark();
        let len = match uint::decode(bytes) {
            Ok(l) => l,
            Err(e) => {
                return Err(e);
            },
        };
        if len > bytes.remaining_len() as u64 {
            return Err(DecodingError::eof_at(bytes.mark().to_usize()));
        }
        bytes.consume(len as usize);
        Ok(bytes.take_slice_from(mark))
    }

    proof fn lemma_dec_in_range(s: Seq<u8>, i: int) {
    }

    proof fn lemma_dec_progress(s: Seq<u8>, i: int) {
    }

    proof fn lemma_wire_dec(&self, s: Seq<u8>, i: int) {
        let cs = self@;
        let body = encode_utf8(cs);
        let lw = uint_wire(body.len() as u64);
        let w = string_wire(cs);
        assert(s.subrange(i, i + lw.len() as int) =~= w.subrange(0, lw.len() as int));
        assert(w.subrange(0, lw.len() as int) =~= lw);
        lemma_uint_wire_dec(body.len() as u64, s, i);
        let j = i + lw.len() as int;
        assert(s.subrange(j, j + body.len() as int) =~= w.subrange(
            lw.len() as int,
            w.len() as int,
        ));
        assert(w.subrange(lw.len() as int, w.len() as int) =~= body);
        vstd::utf8::encode_utf8_valid_utf8(cs);
        vstd::utf8::encode_utf8_decode_utf8(cs);
    }

    proof fn lemma_rec_covers(s: Seq<u8>, i: int) {
    }

    proof fn lemma_dec_frame(s: Seq<u8>, i: int, t: Seq<u8>, k: int) {
        let (len, j) = uint_dec(s, i)->Some_0;
        let e = string_dec(s, i)->Some_0.1;
        lemma_uint_dec_frame_window(s, i, t, k, e);
        let k1 = k + (j - i);
        assert(t.subrange(k1, k1 + (e - j)) =~= s.subrange(j, e)) by {
            let big_t = t.subrange(k, k + (e - i));
            let big_s = s.subrange(i, e);
            assert(big_t =~= big_s);
            assert(t.subrange(k1, k1 + (e - j)) =~= big_t.subrange(j - i, e - i));
            assert(s.subrange(j, e) =~= big_s.subrange(j - i, e - i));
        }
    }
}

/// The varint head of a composite decodes the same inside a copied window.
proof fn lemma_uint_dec_frame_window(s: Seq<u8>, i: int, t: Seq<u8>, k: int, e: int)
    requires
        0 <= i <= s.len(),
        0 <= k,
        uint_dec(s, i) is Some,
        uint_dec(s, i)->Some_0.1 <= e <= s.len(),
        k + (e - i) <= t.len(),
        t.subrange(k, k + (e - i)) == s.subrange(i, e),
    ensures
        uint_dec(t, k) == Some((uint_dec(s, i)->Some_0.0, k + (uint_dec(s, i)->Some_0.1 - i))),
{
    let j = uint_dec(s, i)->Some_0.1;
    assert(t.subrange(k, k + (j - i)) =~= s.subrange(i, j)) by {
        let big_t = t.subrange(k, k + (e - i));
        let big_s = s.subrange(i, e);
        assert(big_t =~= big_s);
        assert(t.subrange(k, k + (j - i)) =~= big_t.subrange(0, j - i));
        assert(s.subrange(i, j) =~= big_s.subrange(0, j - i));
    }
    lemma_uint_dec_frame(s, i, t, k);
}

impl Decodable for String {
    open spec fn dec_n(s: Seq<u8>, i: int, n: nat) -> Option<(Seq<Seq<char>>, int)> {
        dec_iter::<String>(s, i, n)
    }

    open spec fn dec_n_err(s: Seq<u8>, i: int, n: nat) -> DecodingError {
        dec_iter_err::<String>(s, i, n)
    }

    open spec fn rec_n(s: Seq<u8>, i: int, n: nat) -> Option<int> {
        rec_iter::<String>(s, i, n)
    }

    open spec fn rec_n_err(s: Seq<u8>, i: int, n: nat) -> DecodingError {
        rec_iter_err::<String>(s, i, n)
    }

    fn decode_many(
        bytes: &mut Bytes<'_>,
        buf: &mut Vec<u8>,
        n: usize,
        values: &mut Vec<String>,
    ) -> Result<(), DecodingError> {
        decode_each(bytes, buf, n, values)
    }

    fn recognize_many<'a>(bytes: &mut Bytes<'a>, buf: &mut Vec<u8>, n: usize) -> Result<
        ByteSlice<'a, String>,
        DecodingError,
    > {
        recognize_each(bytes, buf, n)
    }

    proof fn lemma_wire_dec_n(values: Seq<String>, s: Seq<u8>, i: int) {
        lemma_iter_wire_dec::<String>(values, s, i);
    }

    proof fn lemma_dec_n_in_range(s: Seq<u8>, i: int, n: nat) {
        lemma_dec_iter_in_range::<String>(s, i, n);
    }

    proof fn lemma_dec_n_frame(s: Seq<u8>, i: int, t: Seq<u8>, k: int, n: nat) {
        lemma_dec_iter_frame::<String>(s, i, t, k, n);
    }

    proof fn lemma_rec_covers_n(s: Seq<u8>, i: int, n: nat) {
        lemma_rec_iter_covers::<String>(s, i, n);
    }
}

} // verus!

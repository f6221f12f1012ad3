//! The varint-coded value types: `Uint` (unsigned varint), `Sint`
//! (zig-zag signed varint), `Float` (byte-reversed float varint, held as
//! its 64-bit pattern) and `Float32` (raw 4-byte little-endian pattern).

use vstd::prelude::*;

use crate::base::float::{float_dec, float_wire, lemma_float_wire_dec};
use crate::base::sint::{lemma_sint_wire_dec, sint_dec, sint_wire};
use crate::base::uint::{
    le_seq, le_val, lemma_le_seq_val, lemma_uint_dec_frame, lemma_uint_wire_dec, pow256, uint_dec,
    uint_wire,
};
use crate::base::{float, sint, uint};
use crate::bytes::{ByteSlice, Bytes};
use crate::errors::{eof, DecodingError};
use crate::traits::{
    dec_iter, dec_iter_err, decode_each, encode_each, lemma_dec_iter_frame,
    lemma_dec_iter_in_range, lemma_iter_wire_dec, lemma_rec_iter_covers, rec_iter, rec_iter_err,
    recognize_each, wire_iter, Decodable, Encodable, WireDecode, WireEncode,
};

verus! {

/// An unsigned 64-bit value that travels as an unsigned varint.
#[derive(Debug, Clone, Copy, PartialEq, Eq, PartialOrd, Ord, Hash, Structural)]
pub struct Uint(pub u64);

impl DeepView for Uint {
    type V = u64;

    open spec fn deep_view(&self) -> u64 {
        self.0
    }
}

impl WireEncode for Uint {
    open spec fn wire(&self) -> Seq<u8> {
        uint_wire(self.0)
    }

    open spec fn wf_value(&self) -> bool {
        true
    }

    fn encode(&self, out: &mut Vec<u8>) {
        uint::encode(self.0, out);
    }

}

impl Encodable for Uint {
    open spec fn wire_n(values: Seq<Uint>) -> Seq<u8> {
        wire_iter(values)
    }

    fn encode_many(values: &[Uint], out: &mut Vec<u8>) {
        encode_each(values, out);
    }
}

impl WireDecode for Uint {
    open spec fn dec(s: Seq<u8>, i: int) -> Option<(u64, int)> {
        uint_dec(s, i)
    }

    open spec fn dec_err(s: Seq<u8>, i: int) -> DecodingError {
        eof(i)
    }

    open spec fn rec(s: Seq<u8>, i: int) -> Option<int> {
        match uint_dec(s, i) {
            Some((_, j)) => Some(j),
            None => None,
        }
    }

    open spec fn rec_err(s: Seq<u8>, i: int) -> DecodingError {
        eof(i)
    }

    open spec fn rt() -> bool {
        true
    }

    open spec fn rec_exact() -> bool {
        true
    }

    fn decode(bytes: &mut Bytes<'_>, _buf: &mut Vec<u8>) -> Result<Uint, DecodingError> {
        match uint::decode(bytes) {
            Ok(v) => Ok(Uint(v)),
            Err(e) => Err(e),
        }
    }

    fn recognize<'a>(bytes: &mut Bytes<'a>, _buf: &mut Vec<u8>) -> Result<
        ByteSlice<'a, Uint>,
        DecodingError,
    > {
        match uint::recognize(bytes) {
            Ok(w) => Ok(w.cast()),
            Err(e) => Err(e),
        }
    }

    proof fn lemma_wire_dec(&self, s: Seq<u8>, i: int) {
        lemma_uint_wire_dec(self.0, s, i);
    }

    proof fn lemma_rec_covers(s: Seq<u8>, i: int) {
    }

    open spec fn dec_progress() -> bool {
        true
    }

    proof fn lemma_dec_in_range(s: Seq<u8>, i: int) {
    }

    proof fn lemma_dec_progress(s: Seq<u8>, i: int) {
    }

    proof fn lemma_dec_frame(s: Seq<u8>, i: int, t: Seq<u8>, k: int) {
        lemma_uint_dec_frame(s, i, t, k);
    }
}

impl Decodable for Uint {
    open spec fn dec_n(s: Seq<u8>, i: int, n: nat) -> Option<(Seq<u64>, int)> {
        dec_iter::<Uint>(s, i, n)
    }

    open spec fn dec_n_err(s: Seq<u8>, i: int, n: nat) -> DecodingError {
        dec_iter_err::<Uint>(s, i, n)
    }

    open spec fn rec_n(s: Seq<u8>, i: int, n: nat) -> Option<int> {
        rec_iter::<Uint>(s, i, n)
    }

    open spec fn rec_n_err(s: Seq<u8>, i: int, n: nat) -> DecodingError {
        rec_iter_err::<Uint>(s, i, n)
    }

    fn decode_many(
        bytes: &mut Bytes<'_>,
        buf: &mut Vec<u8>,
        n: usize,
        values: &mut Vec<Uint>,
    ) -> Result<(), DecodingError> {
        decode_each(bytes, buf, n, values)
    }

    fn recognize_many<'a>(bytes: &mut Bytes<'a>, buf: &mut Vec<u8>, n: usize) -> Result<
        ByteSlice<'a, Uint>,
        DecodingError,
    > {
        recognize_each(bytes, buf, n)
    }

    proof fn lemma_wire_dec_n(values: Seq<Uint>, s: Seq<u8>, i: int) {
        lemma_iter_wire_dec::<Uint>(values, s, i);
    }

    proof fn lemma_dec_n_in_range(s: Seq<u8>, i: int, n: nat) {
        lemma_dec_iter_in_range::<Uint>(s, i, n);
    }

    proof fn lemma_dec_n_frame(s: Seq<u8>, i: int, t: Seq<u8>, k: int, n: nat) {
        lemma_dec_iter_frame::<Uint>(s, i, t, k, n);
    }

    proof fn lemma_rec_covers_n(s: Seq<u8>, i: int, n: nat) {
        lemma_rec_iter_covers::<Uint>(s, i, n);
    }
}


/// A signed 64-bit value that travels as a zig-zag signed varint.
#[derive(Debug, Clone, Copy, PartialEq, Eq, PartialOrd, Ord, Hash, Structural)]
pub struct Sint(pub i64);

impl DeepView for Sint {
    type V = i64;

    open spec fn deep_view(&self) -> i64 {
        self.0
    }
}

impl WireEncode for Sint {
    open spec fn wire(&self) -> Seq<u8> {
        sint_wire(self.0)
    }

    open spec fn wf_value(&self) -> bool {
        true
    }

    fn encode(&self, out: &mut Vec<u8>) {
        sint::encode(self.0, out);
    }

}

impl Encodable for Sint {
    open spec fn wire_n(values: Seq<Sint>) -> Seq<u8> {
        wire_iter(values)
    }

    fn encode_many(values: &[Sint], out: &mut Vec<u8>) {
        encode_each(values, out);
    }
}

impl WireDecode for Sint {
    open spec fn dec(s: Seq<u8>, i: int) -> Option<(i64, int)> {
        sint_dec(s, i)
    }

    open spec fn dec_err(s: Seq<u8>, i: int) -> DecodingError {
        eof(i)
    }

    open spec fn rec(s: Seq<u8>, i: int) -> Option<int> {
        match sint_dec(s, i) {
            Some((_, j)) => Some(j),
            None => None,
        }
    }

    open spec fn rec_err(s: Seq<u8>, i: int) -> DecodingError {
        eof(i)
    }

    open spec fn rt() -> bool {
        true
    }

    open spec fn rec_exact() -> bool {
        true
    }

    fn decode(bytes: &mut Bytes<'_>, _buf: &mut Vec<u8>) -> Result<Sint, DecodingError> {
        match sint::decode(bytes) {
            Ok(v) => Ok(Sint(v)),
            Err(e) => Err(e),
        }
    }

    fn recognize<'a>(bytes: &mut Bytes<'a>, _buf: &mut Vec<u8>) -> Result<
        ByteSlice<'a, Sint>,
        DecodingError,
    > {
        match sint::recognize(bytes) {
            Ok(w) => Ok(w.cast()),
            Err(e) => Err(e),
        }
    }

    proof fn lemma_wire_dec(&self, s: Seq<u8>, i: int) {
        lemma_sint_wire_dec(self.0, s, i);
    }

    proof fn lemma_rec_covers(s: Seq<u8>, i: int) {
    }

    open spec fn dec_progress() -> bool {
        true
    }

    proof fn lemma_dec_in_range(s: Seq<u8>, i: int) {
    }

    proof fn lemma_dec_progress(s: Seq<u8>, i: int) {
    }

    proof fn lemma_dec_frame(s: Seq<u8>, i: int, t: Seq<u8>, k: int) {
        lemma_uint_dec_frame(s, i, t, k);
    }
}

impl Decodable for Sint {
    open spec fn dec_n(s: Seq<u8>, i: int, n: nat) -> Option<(Seq<i64>, int)> {
        dec_iter::<Sint>(s, i, n)
    }

    open spec fn dec_n_err(s: Seq<u8>, i: int, n: nat) -> DecodingError {
        dec_iter_err::<Sint>(s, i, n)
    }

    open spec fn rec_n(s: Seq<u8>, i: int, n: nat) -> Option<int> {
        rec_iter::<Sint>(s, i, n)
    }

    open spec fn rec_n_err(s: Seq<u8>, i: int, n: nat) -> DecodingError {
        rec_iter_err::<Sint>(s, i, n)
    }

    fn decode_many(
        bytes: &mut Bytes<'_>,
        buf: &mut Vec<u8>,
        n: usize,
        values: &mut Vec<Sint>,
    ) -> Result<(), DecodingError> {
        decode_each(bytes, buf, n, values)
    }

    fn recognize_many<'a>(bytes: &mut Bytes<'a>, buf: &mut Vec<u8>, n: usize) -> Result<
        ByteSlice<'a, Sint>,
        DecodingError,
    > {
        recognize_each(bytes, buf, n)
    }

    proof fn lemma_wire_dec_n(values: Seq<Sint>, s: Seq<u8>, i: int) {
        lemma_iter_wire_dec::<Sint>(values, s, i);
    }

    proof fn lemma_dec_n_in_range(s: Seq<u8>, i: int, n: nat) {
        lemma_dec_iter_in_range::<Sint>(s, i, n);
    }

    proof fn lemma_dec_n_frame(s: Seq<u8>, i: int, t: Seq<u8>, k: int, n: nat) {
        lemma_dec_iter_frame::<Sint>(s, i, t, k, n);
    }

    proof fn lemma_rec_covers_n(s: Seq<u8>, i: int, n: nat) {
        lemma_rec_iter_covers::<Sint>(s, i, n);
    }
}


/// A 64-bit float held as its bit pattern, travelling as a byte-reversed
/// varint. The caller converts between `f64` and the pattern at the
/// boundary; the codec itself is exact on the 64 bits.
#[derive(Debug, Clone, Copy, PartialEq, Eq, Structural)]
pub struct Float {
    /// The IEEE 754 bit pattern of the value.
    pub bits: u64,
}

impl Float {
    pub fn from_bits(bits: u64) -> (r: Float)
        ensures
            r.bits == bits,
    {
        Float { bits }
    }

    pub fn to_bits(&self) -> (r: u64)
        ensures
            r == self.bits,
    {
        self.bits
    }
}

impl DeepView for Float {
    type V = u64;

    open spec fn deep_view(&self) -> u64 {
        self.bits
    }
}

impl WireEncode for Float {
    open spec fn wire(&self) -> Seq<u8> {
        float_wire(self.bits)
    }

    open spec fn wf_value(&self) -> bool {
        true
    }

    fn encode(&self, out: &mut Vec<u8>) {
        float::encode(self.bits, out);
    }

}

impl Encodable for Float {
    open spec fn wire_n(values: Seq<Float>) -> Seq<u8> {
        wire_iter(values)
    }

    fn encode_many(values: &[Float], out: &mut Vec<u8>) {
        encode_each(values, out);
    }
}

impl WireDecode for Float {
    open spec fn dec(s: Seq<u8>, i: int) -> Option<(u64, int)> {
        float_dec(s, i)
    }

    open spec fn dec_err(s: Seq<u8>, i: int) -> DecodingError {
        eof(i)
    }

    open spec fn rec(s: Seq<u8>, i: int) -> Option<int> {
        match float_dec(s, i) {
            Some((_, j)) => Some(j),
            None => None,
        }
    }

    open spec fn rec_err(s: Seq<u8>, i: int) -> DecodingError {
        eof(i)
    }

    open spec fn rt() -> bool {
        true
    }

    open spec fn rec_exact() -> bool {
        true
    }

    fn decode(bytes: &mut Bytes<'_>, _buf: &mut Vec<u8>) -> Result<Float, DecodingError> {
        match float::decode(bytes) {
            Ok(bits) => Ok(Float { bits }),
            Err(e) => Err(e),
        }
    }

    fn recognize<'a>(bytes: &mut Bytes<'a>, _buf: &mut Vec<u8>) -> Result<
        ByteSlice<'a, Float>,
        DecodingError,
    > {
        match float::recognize(bytes) {
            Ok(w) => Ok(w.cast()),
            Err(e) => Err(e),
        }
    }

    proof fn lemma_wire_dec(&self, s: Seq<u8>, i: int) {
        lemma_float_wire_dec(self.bits, s, i);
    }

    proof fn lemma_rec_covers(s: Seq<u8>, i: int) {
    }

    open spec fn dec_progress() -> bool {
        true
    }

    proof fn lemma_dec_in_range(s: Seq<u8>, i: int) {
    }

    proof fn lemma_dec_progress(s: Seq<u8>, i: int) {
    }

    proof fn lemma_dec_frame(s: Seq<u8>, i: int, t: Seq<u8>, k: int) {
        lemma_uint_dec_frame(s, i, t, k);
    }
}

impl Decodable for Float {
    open spec fn dec_n(s: Seq<u8>, i: int, n: nat) -> Option<(Seq<u64>, int)> {
        dec_iter::<Float>(s, i, n)
    }

    open spec fn dec_n_err(s: Seq<u8>, i: int, n: nat) -> DecodingError {
        dec_iter_err::<Float>(s, i, n)
    }

    open spec fn rec_n(s: Seq<u8>, i: int, n: nat) -> Option<int> {
        rec_iter::<Float>(s, i, n)
    }

    open spec fn rec_n_err(s: Seq<u8>, i: int, n: nat) -> DecodingError {
        rec_iter_err::<Float>(s, i, n)
    }

    fn decode_many(
        bytes: &mut Bytes<'_>,
        buf: &mut Vec<u8>,
        n: usize,
        values: &mut Vec<Float>,
    ) -> Result<(), DecodingError> {
        decode_each(bytes, buf, n, values)
    }

    fn recognize_many<'a>(bytes: &mut Bytes<'a>, buf: &mut Vec<u8>, n: usize) -> Result<
        ByteSlice<'a, Float>,
        DecodingError,
    > {
        recognize_each(bytes, buf, n)
    }

    proof fn lemma_wire_dec_n(values: Seq<Float>, s: Seq<u8>, i: int) {
        lemma_iter_wire_dec::<Float>(values, s, i);
    }

    proof fn lemma_dec_n_in_range(s: Seq<u8>, i: int, n: nat) {
        lemma_dec_iter_in_range::<Float>(s, i, n);
    }

    proof fn lemma_dec_n_frame(s: Seq<u8>, i: int, t: Seq<u8>, k: int, n: nat) {
        lemma_dec_iter_frame::<Float>(s, i, t, k, n);
    }

    proof fn lemma_rec_covers_n(s: Seq<u8>, i: int, n: nat) {
        lemma_rec_iter_covers::<Float>(s, i, n);
    }
}


/// A 32-bit float held as its bit pattern, travelling as its raw four
/// little-endian bytes (fixed width).
#[derive(Debug, Clone, Copy, PartialEq, Eq, Structural)]
pub struct Float32 {
    /// The IEEE 754 bit pattern of the value.
    pub bits: u32,
}

impl Float32 {
    pub fn from_bits(bits: u32) -> (r: Float32)
        ensures
            r.bits == bits,
    {
        Float32 { bits }
    }

    pub fn to_bits(&self) -> (r: u32)
        ensures
            r == self.bits,
    {
        self.bits
    }
}

impl DeepView for Float32 {
    type V = u32;

    open spec fn deep_view(&self) -> u32 {
        self.bits
    }
}

/// Decoding a fixed four-byte little-endian 32-bit pattern.
pub open spec fn f32_dec(s: Seq<u8>, i: int) -> Option<(u32, int)> {
    if 0 <= i && i + 4 <= s.len() {
        Some(((le_val(s.subrange(i, i + 4)) % pow256(4)) as u32, i + 4))
    } else {
        None
    }
}

impl WireEncode for Float32 {
    open spec fn wire(&self) -> Seq<u8> {
        le_seq(self.bits as nat, 4)
    }

    open spec fn wf_value(&self) -> bool {
        true
    }

    fn encode(&self, out: &mut Vec<u8>) {
        crate::imp::fixed::encode_le(self.bits as u64, 4, out);
    }

}

impl Encodable for Float32 {
    open spec fn wire_n(values: Seq<Float32>) -> Seq<u8> {
        wire_iter(values)
    }

    fn encode_many(values: &[Float32], out: &mut Vec<u8>) {
        encode_each(values, out);
    }
}

impl WireDecode for Float32 {
    open spec fn dec(s: Seq<u8>, i: int) -> Option<(u32, int)> {
        f32_dec(s, i)
    }

    open spec fn dec_err(s: Seq<u8>, i: int) -> DecodingError {
        eof(i)
    }

    open spec fn rec(s: Seq<u8>, i: int) -> Option<int> {
        match f32_dec(s, i) {
            Some((_, j)) => Some(j),
            None => None,
        }
    }

    open spec fn rec_err(s: Seq<u8>, i: int) -> DecodingError {
        eof(i)
    }

    open spec fn rt() -> bool {
        true
    }

    open spec fn rec_exact() -> bool {
        true
    }

    fn decode(bytes: &mut Bytes<'_>, _buf: &mut Vec<u8>) -> Result<Float32, DecodingError> {
        match crate::imp::fixed::decode_le(bytes, 4) {
            Ok(v) => {
                proof {
                    crate::imp::fixed::lemma_fixed_fits(old(bytes).data(), old(bytes).pos(), 4);
                    crate::imp::fixed::lemma_pow256_values();
                    vstd::arithmetic::div_mod::lemma_small_mod(v as nat, pow256(4));
                }
                Ok(Float32 { bits: v as u32 })
            },
            Err(e) => Err(e),
        }
    }

    fn recognize<'a>(bytes: &mut Bytes<'a>, _buf: &mut Vec<u8>) -> Result<
        ByteSlice<'a, Float32>,
        DecodingError,
    > {
        match bytes.consume_slice(4) {
            Some(w) => Ok(w),
            None => Err(DecodingError::eof_at(bytes.mark().to_usize())),
        }
    }

    proof fn lemma_wire_dec(&self, s: Seq<u8>, i: int) {
        crate::imp::fixed::lemma_pow256_values();
        lemma_le_seq_val(self.bits as nat, 4);
        crate::imp::fixed::lemma_fixed_wire_dec(self.bits as nat, 4, s, i);
        vstd::arithmetic::div_mod::lemma_small_mod(self.bits as nat, pow256(4));
    }

    proof fn lemma_rec_covers(s: Seq<u8>, i: int) {
    }

    open spec fn dec_progress() -> bool {
        true
    }

    proof fn lemma_dec_in_range(s: Seq<u8>, i: int) {
    }

    proof fn lemma_dec_progress(s: Seq<u8>, i: int) {
    }

    proof fn lemma_dec_frame(s: Seq<u8>, i: int, t: Seq<u8>, k: int) {
        assert(t.subrange(k, k + 4) =~= s.subrange(i, i + 4));
    }
}

impl Decodable for Float32 {
    open spec fn dec_n(s: Seq<u8>, i: int, n: nat) -> Option<(Seq<u32>, int)> {
        dec_iter::<Float32>(s, i, n)
    }

    open spec fn dec_n_err(s: Seq<u8>, i: int, n: nat) -> DecodingError {
        dec_iter_err::<Float32>(s, i, n)
    }

    open spec fn rec_n(s: Seq<u8>, i: int, n: nat) -> Option<int> {
        rec_iter::<Float32>(s, i, n)
    }

    open spec fn rec_n_err(s: Seq<u8>, i: int, n: nat) -> DecodingError {
        rec_iter_err::<Float32>(s, i, n)
    }

    fn decode_many(
        bytes: &mut Bytes<'_>,
        buf: &mut Vec<u8>,
        n: usize,
        values: &mut Vec<Float32>,
    ) -> Result<(), DecodingError> {
        decode_each(bytes, buf, n, values)
    }

    fn recognize_many<'a>(bytes: &mut Bytes<'a>, buf: &mut Vec<u8>, n: usize) -> Result<
        ByteSlice<'a, Float32>,
        DecodingError,
    > {
        recognize_each(bytes, buf, n)
    }

    proof fn lemma_wire_dec_n(values: Seq<Float32>, s: Seq<u8>, i: int) {
        lemma_iter_wire_dec::<Float32>(values, s, i);
    }

    proof fn lemma_dec_n_in_range(s: Seq<u8>, i: int, n: nat) {
        lemma_dec_iter_in_range::<Float32>(s, i, n);
    }

    proof fn lemma_dec_n_frame(s: Seq<u8>, i: int, t: Seq<u8>, k: int, n: nat) {
        lemma_dec_iter_frame::<Float32>(s, i, t, k, n);
    }

    proof fn lemma_rec_covers_n(s: Seq<u8>, i: int, n: nat) {
        lemma_rec_iter_covers::<Float32>(s, i, n);
    }
}


/// A 64-bit float held as its bit pattern, travelling as its raw eight
/// little-endian bytes (fixed width).
#[derive(Debug, Clone, Copy, PartialEq, Eq, Structural)]
pub struct Float64 {
    /// The IEEE 754 bit pattern of the value.
    pub bits: u64,
}

impl Float64 {
    pub fn from_bits(bits: u64) -> (r: Float64)
        ensures
            r.bits == bits,
    {
        Float64 { bits }
    }

    pub fn to_bits(&self) -> (r: u64)
        ensures
            r == self.bits,
    {
        self.bits
    }
}

impl DeepView for Float64 {
    type V = u64;

    open spec fn deep_view(&self) -> u64 {
        self.bits
    }
}

/// Decoding a fixed eight-byte little-endian 64-bit pattern.
pub open spec fn f64_dec(s: Seq<u8>, i: int) -> Option<(u64, int)> {
    if 0 <= i && i + 8 <= s.len() {
        Some(((le_val(s.subrange(i, i + 8)) % pow256(8)) as u64, i + 8))
    } else {
        None
    }
}

impl WireEncode for Float64 {
    open spec fn wire(&self) -> Seq<u8> {
        le_seq(self.bits as nat, 8)
    }

    open spec fn wf_value(&self) -> bool {
        true
    }

    fn encode(&self, out: &mut Vec<u8>) {
        crate::imp::fixed::encode_le(self.bits, 8, out);
    }
}

impl Encodable for Float64 {
    open spec fn wire_n(values: Seq<Float64>) -> Seq<u8> {
        wire_iter(values)
    }

    fn encode_many(values: &[Float64], out: &mut Vec<u8>) {
        encode_each(values, out);
    }
}

impl WireDecode for Float64 {
    open spec fn dec(s: Seq<u8>, i: int) -> Option<(u64, int)> {
        f64_dec(s, i)
    }

    open spec fn dec_err(s: Seq<u8>, i: int) -> DecodingError {
        eof(i)
    }

    open spec fn rec(s: Seq<u8>, i: int) -> Option<int> {
        match f64_dec(s, i) {
            Some((_, j)) => Some(j),
            None => None,
        }
    }

    open spec fn rec_err(s: Seq<u8>, i: int) -> DecodingError {
        eof(i)
    }

    open spec fn rt() -> bool {
        true
    }

    open spec fn rec_exact() -> bool {
        true
    }

    open spec fn dec_progress() -> bool {
        true
    }

    fn decode(bytes: &mut Bytes<'_>, _buf: &mut Vec<u8>) -> Result<Float64, DecodingError> {
        match crate::imp::fixed::decode_le(bytes, 8) {
            Ok(v) => {
                proof {
                    crate::imp::fixed::lemma_fixed_fits(old(bytes).data(), old(bytes).pos(), 8);
                    crate::imp::fixed::lemma_pow256_values();
                    vstd::arithmetic::div_mod::lemma_small_mod(v as nat, pow256(8));
                }
                Ok(Float64 { bits: v })
            },
            Err(e) => Err(e),
        }
    }

    fn recognize<'a>(bytes: &mut Bytes<'a>, _buf: &mut Vec<u8>) -> Result<
        ByteSlice<'a, Float64>,
        DecodingError,
    > {
        match bytes.consume_slice(8) {
            Some(w) => Ok(w),
            None => Err(DecodingError::eof_at(bytes.mark().to_usize())),
        }
    }

    proof fn lemma_dec_in_range(s: Seq<u8>, i: int) {
    }

    proof fn lemma_dec_progress(s: Seq<u8>, i: int) {
    }

    proof fn lemma_wire_dec(&self, s: Seq<u8>, i: int) {
        crate::imp::fixed::lemma_pow256_values();
        lemma_le_seq_val(self.bits as nat, 8);
        crate::imp::fixed::lemma_fixed_wire_dec(self.bits as nat, 8, s, i);
        vstd::arithmetic::div_mod::lemma_small_mod(self.bits as nat, pow256(8));
    }

    proof fn lemma_rec_covers(s: Seq<u8>, i: int) {
    }

    proof fn lemma_dec_frame(s: Seq<u8>, i: int, t: Seq<u8>, k: int) {
        assert(t.subrange(k, k + 8) =~= s.subrange(i, i + 8));
    }
}

impl Decodable for Float64 {
    open spec fn dec_n(s: Seq<u8>, i: int, n: nat) -> Option<(Seq<u64>, int)> {
        dec_iter::<Float64>(s, i, n)
    }

    open spec fn dec_n_err(s: Seq<u8>, i: int, n: nat) -> DecodingError {
        dec_iter_err::<Float64>(s, i, n)
    }

    open spec fn rec_n(s: Seq<u8>, i: int, n: nat) -> Option<int> {
        rec_iter::<Float64>(s, i, n)
    }

    open spec fn rec_n_err(s: Seq<u8>, i: int, n: nat) -> DecodingError {
        rec_iter_err::<Float64>(s, i, n)
    }

    fn decode_many(
        bytes: &mut Bytes<'_>,
        buf: &mut Vec<u8>,
        n: usize,
        values: &mut Vec<Float64>,
    ) -> Result<(), DecodingError> {
        decode_each(bytes, buf, n, values)
    }

    fn recognize_many<'a>(bytes: &mut Bytes<'a>, buf: &mut Vec<u8>, n: usize) -> Result<
        ByteSlice<'a, Float64>,
        DecodingError,
    > {
        recognize_each(bytes, buf, n)
    }

    proof fn lemma_wire_dec_n(values: Seq<Float64>, s: Seq<u8>, i: int) {
        lemma_iter_wire_dec::<Float64>(values, s, i);
    }

    proof fn lemma_dec_n_in_range(s: Seq<u8>, i: int, n: nat) {
        lemma_dec_iter_in_range::<Float64>(s, i, n);
    }

    proof fn lemma_dec_n_frame(s: Seq<u8>, i: int, t: Seq<u8>, k: int, n: nat) {
        lemma_dec_iter_frame::<Float64>(s, i, t, k, n);
    }

    proof fn lemma_rec_covers_n(s: Seq<u8>, i: int, n: nat) {
        lemma_rec_iter_covers::<Float64>(s, i, n);
    }
}

} // verus!

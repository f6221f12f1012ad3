//! The closed taxonomy of decoding errors. Every error carries the byte
//! offset at which the problem was detected.

use vstd::prelude::*;

use crate::bytes::Bytes;

verus! {

/// Not enough bytes were left to satisfy a length or a fixed-width primitive.
#[derive(Debug, Clone, Copy, PartialEq, Eq, Structural)]
pub struct UnexpectedEof {
    pub pos: usize,
}

impl UnexpectedEof {
    /// The error at the cursor's current position.
    pub fn new(bytes: &Bytes<'_>) -> (r: Self)
        ensures
            r.pos == bytes.pos(),
    {
        UnexpectedEof::new_at(bytes.mark().to_usize())
    }

    pub fn new_at(pos: usize) -> (r: Self)
        ensures
            r.pos == pos,
    {
        UnexpectedEof { pos }
    }

    pub fn pos(&self) -> (r: usize)
        ensures
            r == self.pos,
    {
        self.pos
    }
}

/// A discriminant or variable-length header was out of range.
#[derive(Debug, Clone, Copy, PartialEq, Eq, Structural)]
pub struct InvalidPrefix {
    pub pos: usize,
}

impl InvalidPrefix {
    /// The error at the cursor's current position.
    pub fn new(bytes: &Bytes<'_>) -> (r: Self)
        ensures
            r.pos == bytes.pos(),
    {
        InvalidPrefix::new_at(bytes.mark().to_usize())
    }

    pub fn new_at(pos: usize) -> (r: Self)
        ensures
            r.pos == pos,
    {
        InvalidPrefix { pos }
    }

    pub fn pos(&self) -> (r: usize)
        ensures
            r == self.pos,
    {
        self.pos
    }
}

/// The content was structurally well formed but semantically invalid
/// (for strings: the bytes were not valid UTF-8).
#[derive(Debug, Clone, Copy, PartialEq, Eq, Structural)]
pub struct ValueError {
    pub pos: usize,
}

impl ValueError {
    /// The error at the cursor's current position.
    pub fn new(bytes: &Bytes<'_>) -> (r: Self)
        ensures
            r.pos == bytes.pos(),
    {
        ValueError::new_at(bytes.mark().to_usize())
    }

    pub fn new_at(pos: usize) -> (r: Self)
        ensures
            r.pos == pos,
    {
        ValueError { pos }
    }

    pub fn pos(&self) -> (r: usize)
        ensures
            r == self.pos,
    {
        self.pos
    }
}

/// Any of the three decoding failures.
#[derive(Debug, Clone, Copy, PartialEq, Eq, Structural)]
pub enum DecodingError {
    UnexpectedEof(UnexpectedEof),
    InvalidPrefix(InvalidPrefix),
    ValueError(ValueError),
}

/// The error value that reports an unexpected end of input at `pos`.
pub open spec fn eof(pos: int) -> DecodingError {
    DecodingError::UnexpectedEof(UnexpectedEof { pos: pos as usize })
}

/// The error value that reports an invalid prefix at `pos`.
pub open spec fn invalid_prefix(pos: int) -> DecodingError {
    DecodingError::InvalidPrefix(InvalidPrefix { pos: pos as usize })
}

/// The error value that reports an invalid value at `pos`.
pub open spec fn value_error(pos: int) -> DecodingError {
    DecodingError::ValueError(ValueError { pos: pos as usize })
}

impl DecodingError {
    /// The byte offset at which the problem was detected, whatever the kind.
    pub open spec fn spec_pos(&self) -> int {
        match self {
            DecodingError::UnexpectedEof(e) => e.pos as int,
            DecodingError::InvalidPrefix(e) => e.pos as int,
            DecodingError::ValueError(e) => e.pos as int,
        }
    }

    pub fn pos(&self) -> (r: usize)
        ensures
            r == self.spec_pos(),
    {
        match self {
            DecodingError::UnexpectedEof(e) => e.pos(),
            DecodingError::InvalidPrefix(e) => e.pos(),
            DecodingError::ValueError(e) => e.pos(),
        }
    }

    pub fn eof_at(pos: usize) -> (r: Self)
        ensures
            r == eof(pos as int),
    {
        DecodingError::UnexpectedEof(UnexpectedEof::new_at(pos))
    }

    pub fn invalid_prefix_at(pos: usize) -> (r: Self)
        ensures
            r == invalid_prefix(pos as int),
    {
        DecodingError::InvalidPrefix(InvalidPrefix::new_at(pos))
    }

    pub fn value_error_at(pos: usize) -> (r: Self)
        ensures
            r == value_error(pos as int),
    {
        DecodingError::ValueError(ValueError::new_at(pos))
    }
}

} // verus!

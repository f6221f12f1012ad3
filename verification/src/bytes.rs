//! A read position over an immutable byte slice, producing typed byte
//! windows (sub-slice plus origin offset) and detachable spans (offset plus
//! length).

use core::marker::PhantomData;
use vstd::prelude::*;
use vstd::slice::slice_subrange;

verus! {

/// A cursor over a borrowed byte buffer: the origin bytes plus a count of
/// bytes consumed so far.
#[derive(Debug)]
pub struct Bytes<'a> {
    bytes: &'a [u8],
    consumed: usize,
}

impl<'a> Bytes<'a> {
    /// The whole origin buffer the cursor reads from.
    pub closed spec fn data(&self) -> Seq<u8> {
        self.bytes@
    }

    /// The current read position.
    pub closed spec fn pos(&self) -> int {
        self.consumed as int
    }

    /// The cursor never points past the end of the origin.
    pub open spec fn wf(&self) -> bool {
        0 <= self.pos() <= self.data().len() <= usize::MAX
    }

    /// The bytes not yet consumed.
    pub open spec fn remaining(&self) -> Seq<u8> {
        self.data().subrange(self.pos(), self.data().len() as int)
    }

    pub fn new(bytes: &'a [u8]) -> (r: Self)
        ensures
            r.data() == bytes@,
            r.pos() == 0,
            r.wf(),
    {
        proof {
            assert(bytes@.len() == vstd::slice::spec_slice_len(bytes));
        }
        Bytes { bytes, consumed: 0 }
    }

    /// How many bytes are left to read.
    pub fn remaining_len(&self) -> (r: usize)
        requires
            self.wf(),
        ensures
            r == self.data().len() - self.pos(),
    {
        self.bytes.len() - self.consumed
    }

    pub fn is_empty(&self) -> (r: bool)
        requires
            self.wf(),
        ensures
            r <==> self.pos() == self.data().len(),
    {
        self.remaining_len() == 0
    }

    /// The next unconsumed byte, if any.
    pub fn first(&self) -> (r: Option<u8>)
        requires
            self.wf(),
        ensures
            match r {
                Some(b) => self.pos() < self.data().len() && b == self.data()[self.pos()],
                None => self.pos() == self.data().len(),
            },
    {
        if self.consumed < self.bytes.len() {
            Some(self.bytes[self.consumed])
        } else {
            None
        }
    }

    /// Advance the read position by `len` bytes.
    pub fn consume(&mut self, len: usize)
        requires
            old(self).wf(),
            old(self).pos() + len <= old(self).data().len(),
        ensures
            final(self).wf(),
            final(self).data() == old(self).data(),
            final(self).pos() == old(self).pos() + len,
    {
        self.consumed = self.consumed + len;
    }

    /// Advance by `len` bytes and hand the consumed bytes back, or `None`
    /// when fewer than `len` bytes are left (the position then stays put).
    pub fn consume_bytes(&mut self, len: usize) -> (r: Option<&'a [u8]>)
        requires
            old(self).wf(),
        ensures
            final(self).wf(),
            final(self).data() == old(self).data(),
            match r {
                Some(s) => {
                    &&& old(self).pos() + len <= final(self).data().len()
                    &&& final(self).pos() == old(self).pos() + len
                    &&& s@ == final(self).data().subrange(old(self).pos(), final(self).pos())
                },
                None => {
                    &&& old(self).pos() + len > final(self).data().len()
                    &&& final(self).pos() == old(self).pos()
                },
            },
    {
        if len <= self.bytes.len() - self.consumed {
            let offset = self.consumed;
            self.consumed = self.consumed + len;
            Some(slice_subrange(self.bytes, offset, self.consumed))
        } else {
            None
        }
    }

    /// Like `consume_bytes`, but wraps the consumed bytes as a typed window
    /// that remembers its offset in the origin.
    pub fn consume_slice<T>(&mut self, len: usize) -> (r: Option<ByteSlice<'a, T>>)
        requires
            old(self).wf(),
        ensures
            final(self).wf(),
            final(self).data() == old(self).data(),
            match r {
                Some(w) => {
                    &&& old(self).pos() + len <= final(self).data().len()
                    &&& final(self).pos() == old(self).pos() + len
                    &&& w.bytes() == final(self).data().subrange(old(self).pos(), final(self).pos())
                    &&& w.offset() == old(self).pos()
                },
                None => {
                    &&& old(self).pos() + len > final(self).data().len()
                    &&& final(self).pos() == old(self).pos()
                },
            },
    {
        let offset = self.consumed;
        match self.consume_bytes(len) {
            Some(slice) => Some(ByteSlice { slice, offset, ty: PhantomData }),
            None => None,
        }
    }

    /// The window from an earlier mark up to the current position.
    pub fn take_slice_from<T>(&self, offset: Mark) -> (r: ByteSlice<'a, T>)
        requires
            self.wf(),
            0 <= offset.pos() <= self.pos(),
        ensures
            r.bytes() == self.data().subrange(offset.pos(), self.pos()),
            r.offset() == offset.pos(),
    {
        let offset = offset.to_usize();
        let slice = slice_subrange(self.bytes, offset, self.consumed);
        ByteSlice { slice, offset, ty: PhantomData }
    }

    /// Remember the current position.
    pub fn mark(&self) -> (r: Mark)
        ensures
            r.pos() == self.pos(),
    {
        Mark(self.consumed)
    }
}

/// A remembered cursor position.
#[derive(Debug, Clone, Copy, PartialEq, Eq, Structural)]
pub struct Mark(pub usize);

impl Mark {
    pub open spec fn pos(&self) -> int {
        self.0 as int
    }

    pub fn to_usize(self) -> (r: usize)
        ensures
            r == self.pos(),
    {
        self.0
    }
}

/// A borrowed window into an origin buffer that has been recognized as
/// holding exactly one encoded value of type `T`. The type parameter is
/// advisory: it records which decoder the window is intended for.
#[derive(Debug)]
pub struct ByteSlice<'a, T> {
    slice: &'a [u8],
    offset: usize,
    ty: PhantomData<T>,
}

impl<'a, T> ByteSlice<'a, T> {
    /// The window's bytes.
    pub closed spec fn bytes(&self) -> Seq<u8> {
        self.slice@
    }

    /// Where the window starts in its origin buffer.
    pub closed spec fn offset(&self) -> int {
        self.offset as int
    }

    pub fn as_bytes(&self) -> (r: &[u8])
        ensures
            r@ == self.bytes(),
    {
        self.slice
    }

    /// Detach the window from the borrow: keep only offset and length.
    pub fn span(&self) -> (r: ByteSpan<T>)
        ensures
            r.offset() == self.offset(),
            r.len() == self.bytes().len(),
    {
        ByteSpan { offset: self.offset, len: self.slice.len(), ty: PhantomData }
    }

    /// Re-type the window for another decoder.
    pub fn cast<U>(self) -> (r: ByteSlice<'a, U>)
        ensures
            r.bytes() == self.bytes(),
            r.offset() == self.offset(),
    {
        ByteSlice { slice: self.slice, offset: self.offset, ty: PhantomData }
    }
}

/// A detached window: offset and length into an origin buffer, with no
/// borrow of it.
#[derive(Debug)]
pub struct ByteSpan<T> {
    offset: usize,
    len: usize,
    ty: PhantomData<T>,
}

impl<T> ByteSpan<T> {
    pub closed spec fn offset(&self) -> int {
        self.offset as int
    }

    pub closed spec fn len(&self) -> int {
        self.len as int
    }

    /// The window's bytes, read back out of the origin buffer.
    pub fn as_bytes<'a>(&self, origin: &'a [u8]) -> (r: &'a [u8])
        requires
            self.offset() + self.len() <= origin@.len(),
        ensures
            r@ == origin@.subrange(self.offset(), self.offset() + self.len()),
    {
        proof {
            assert(origin@.len() == vstd::slice::spec_slice_len(origin));
        }
        slice_subrange(origin, self.offset, self.offset + self.len)
    }

    /// Re-type the span for another decoder.
    pub fn cast<U>(self) -> (r: ByteSpan<U>)
        ensures
            r.offset() == self.offset(),
            r.len() == self.len(),
    {
        ByteSpan { offset: self.offset, len: self.len, ty: PhantomData }
    }
}

} // verus!

//! A read cursor over an input slice, for the slice parser.

use vstd::prelude::*;

use crate::parse_error::{ParseError, UnexpectedState};

verus! {

/// Errors of the input cursor.
#[derive(Debug, Clone, Copy, PartialEq, Eq, Structural)]
pub enum Error {
    /// The cursor has gone past the last byte.
    ReachedEnd,
    /// A slice was asked for outside the input.
    InvalidSliceBounds,
}

impl From<Error> for ParseError {
    fn from(err: Error) -> (r: Self) {
        match err {
            Error::ReachedEnd => ParseError::EndOfData,
            Error::InvalidSliceBounds => ParseError::Unexpected(UnexpectedState::InvalidSliceBounds),
        }
    }
}

impl vstd::std_specs::convert::FromSpecImpl<Error> for ParseError {
    open spec fn obeys_from_spec() -> bool {
        true
    }

    open spec fn from_spec(err: Error) -> Self {
        match err {
            Error::ReachedEnd => ParseError::EndOfData,
            Error::InvalidSliceBounds => ParseError::Unexpected(UnexpectedState::InvalidSliceBounds),
        }
    }
}

/// A cursor over the input: the position of the next byte, which goes one
/// past the end once the end has been reached.
pub struct SliceInputBuffer<'a> {
    data: &'a [u8],
    pos: usize,
}

impl<'a> SliceInputBuffer<'a> {
    /// The cursor is at most one past the end (and the input's length leaves
    /// room for that position).
    pub closed spec fn wf(&self) -> bool {
        self.data@.len() < usize::MAX && self.pos <= self.data@.len() + 1
    }

    /// The input.
    pub closed spec fn data(&self) -> Seq<u8> {
        self.data@
    }

    /// The position of the next byte.
    pub closed spec fn pos(&self) -> usize {
        self.pos
    }

    /// A cursor at the start of `data`.
    pub fn new(data: &'a [u8]) -> (r: Self)
        requires
            data@.len() < usize::MAX,
        ensures
            r.data() == data@,
            r.pos() == 0,
            r.wf(),
    {
        SliceInputBuffer { data, pos: 0 }
    }

    /// The position of the next byte.
    pub fn current_pos(&self) -> (r: usize)
        ensures
            r == self.pos(),
    {
        self.pos
    }

    /// Whether the cursor has gone past the end (the end was reached).
    pub fn is_past_end(&self) -> (r: bool)
        ensures
            r == (self.pos() > self.data().len()),
    {
        self.pos > self.data.len()
    }

    /// Whether no byte is left.
    pub fn is_empty(&self) -> (r: bool)
        ensures
            r == (self.pos() >= self.data().len()),
    {
        self.pos >= self.data.len()
    }

    /// The next byte, moving past it; at the end, `ReachedEnd`, and the
    /// cursor moves past the end.
    pub fn consume_byte(&mut self) -> (r: Result<u8, Error>)
        requires
            old(self).wf(),
        ensures
            final(self).wf(),
            final(self).data() == old(self).data(),
            old(self).pos() < old(self).data().len() ==> r == Ok::<u8, Error>(old(self).data()[old(self).pos() as int])
                && final(self).pos() == old(self).pos() + 1,
            old(self).pos() == old(self).data().len() ==> r == Err::<u8, Error>(Error::ReachedEnd)
                && final(self).pos() == old(self).pos() + 1,
            old(self).pos() > old(self).data().len() ==> r == Err::<u8, Error>(Error::ReachedEnd)
                && final(self).pos() == old(self).pos(),
    {
        if self.pos < self.data.len() {
            let b = self.data[self.pos];
            self.pos = self.pos + 1;
            Ok(b)
        } else {
            if self.pos == self.data.len() {
                self.pos = self.pos + 1;
            }
            Err(Error::ReachedEnd)
        }
    }

    /// The input between `start` and `end`.
    pub fn slice(&self, start: usize, end: usize) -> (r: Result<&'a [u8], Error>)
        ensures
            start <= end <= self.data().len() ==> (r matches Ok(s) && s@ == self.data().subrange(
                start as int,
                end as int,
            )),
            !(start <= end <= self.data().len()) ==> r == Err::<&'a [u8], Error>(Error::InvalidSliceBounds),
    {
        if start > end || end > self.data.len() {
            return Err(Error::InvalidSliceBounds);
        }
        Ok(vstd::slice::slice_subrange(self.data, start, end))
    }
}

} // verus!

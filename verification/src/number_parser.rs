//! Number extraction shared by the parsers: which bytes form the number, and
//! the number event built from them.

use vstd::prelude::*;
use vstd::string::StringSliceAdditionalSpecFns;
use vstd::utf8::valid_utf8;

use crate::json_number::{spec_number_result, JsonNumber};
use crate::parse_error::{ParseError, UnexpectedState};
use crate::shared::{sat_sub, Event};
use crate::slice_input_buffer::SliceInputBuffer;

verus! {

/// Trait for extracting number slices from different buffer implementations.
pub trait NumberExtractor {
    /// The bytes between `start` and `end`, when the buffer holds them.
    spec fn spec_number_slice(&self, start: usize, end: usize) -> Option<Seq<u8>>;

    /// The position the buffer is at.
    spec fn spec_position(&self) -> usize;

    /// Whether the buffer has no byte left.
    spec fn spec_is_empty(&self) -> bool;

    /// Extract a slice of bytes representing a number from start to end position.
    fn get_number_slice(&self, start: usize, end: usize) -> (r: Result<&[u8], ParseError>)
        ensures
            r is Ok <==> self.spec_number_slice(start, end) is Some,
            r matches Ok(s) ==> Some(s@) == self.spec_number_slice(start, end),
            r matches Err(e) ==> e == ParseError::Unexpected(UnexpectedState::InvalidSliceBounds);

    /// Get the current position in the buffer for end position calculation.
    fn current_position(&self) -> (r: usize)
        ensures
            r == self.spec_position();

    /// Check if the buffer is empty (used for delimiter logic).
    fn is_empty(&self) -> (r: bool)
        ensures
            r == self.spec_is_empty();
}

impl<'a> NumberExtractor for SliceInputBuffer<'a> {
    open spec fn spec_number_slice(&self, start: usize, end: usize) -> Option<Seq<u8>> {
        if start <= end <= self.data().len() {
            Some(self.data().subrange(start as int, end as int))
        } else {
            None
        }
    }

    open spec fn spec_position(&self) -> usize {
        self.pos()
    }

    open spec fn spec_is_empty(&self) -> bool {
        self.pos() >= self.data().len()
    }

    fn get_number_slice(&self, start: usize, end: usize) -> (r: Result<&[u8], ParseError>) {
        match self.slice(start, end) {
            Ok(s) => Ok(s),
            Err(_) => Err(ParseError::Unexpected(UnexpectedState::InvalidSliceBounds)),
        }
    }

    fn current_position(&self) -> (r: usize) {
        self.current_pos()
    }

    fn is_empty(&self) -> (r: bool) {
        SliceInputBuffer::is_empty(self)
    }
}

/// Where a number that started at some position ends: a number closed by a
/// container delimiter, or followed by more input, ends before the delimiter
/// just read; one at the end of the input runs to the current position.
pub open spec fn spec_number_end(current_pos: usize, from_container_end: bool, is_empty: bool) -> usize {
    if from_container_end || !is_empty {
        sat_sub(current_pos, 1)
    } else {
        current_pos
    }
}

/// Builds the number event for the number that started at `start_pos`:
/// its bytes are borrowed from the buffer and parsed.
pub fn parse_number_event<T: NumberExtractor>(extractor: &T, start_pos: usize, from_container_end: bool) -> (r: Result<
    Event<'_, '_>,
    ParseError,
>)
    ensures
        ({
            let end = spec_number_end(extractor.spec_position(), from_container_end, extractor.spec_is_empty());
            match extractor.spec_number_slice(start_pos, end) {
                None => r == Err::<Event, ParseError>(ParseError::Unexpected(UnexpectedState::InvalidSliceBounds)),
                Some(bytes) => {
                    &&& (r is Ok <==> valid_utf8(bytes))
                    &&& r matches Ok(ev) ==> ev matches Event::Number(JsonNumber::Borrowed { raw, parsed })
                        && raw.spec_bytes() == bytes && parsed == spec_number_result(bytes)
                    &&& r matches Err(e) ==> e is InvalidNumber || e is InvalidUtf8
                },
            }
        }),
{
    let current_pos = extractor.current_position();
    let number_end = if from_container_end || !extractor.is_empty() {
        current_pos.saturating_sub(1)
    } else {
        current_pos
    };
    let number_bytes = match extractor.get_number_slice(start_pos, number_end) {
        Ok(b) => b,
        Err(e) => return Err(e),
    };
    match JsonNumber::from_slice(number_bytes) {
        Ok(n) => Ok(Event::Number(n)),
        Err(e) => Err(e),
    }
}

} // verus!

//! One buffer for both the input read from a `Reader` and the unescaped
//! content of strings.

use vstd::prelude::*;

use crate::parse_error::{ParseError, UnexpectedState};
use crate::shared::sat_sub;
use crate::tokenizer::wrap_add;

verus! {

/// Error types for StreamBuffer operations
#[derive(Debug, PartialEq, Eq, Clone, Copy, Structural)]
pub enum StreamBufferError {
    /// Buffer is full and cannot accommodate more data
    BufferFull,
    /// Attempted to read beyond available data
    EndOfData,
    /// An unexpected error occurred.
    Unexpected,
    /// Invalid slice bounds provided for string extraction
    InvalidSliceBounds,
}

/// The parse error a stream buffer error stands for.
pub open spec fn spec_stream_error(err: StreamBufferError) -> ParseError {
    match err {
        StreamBufferError::BufferFull => ParseError::ScratchBufferFull,
        StreamBufferError::EndOfData => ParseError::EndOfData,
        StreamBufferError::Unexpected => ParseError::Unexpected(UnexpectedState::BufferCapacityExceeded),
        StreamBufferError::InvalidSliceBounds => ParseError::Unexpected(UnexpectedState::InvalidSliceBounds),
    }
}

impl From<StreamBufferError> for ParseError {
    fn from(err: StreamBufferError) -> (r: Self) {
        match err {
            StreamBufferError::BufferFull => ParseError::ScratchBufferFull,
            StreamBufferError::EndOfData => ParseError::EndOfData,
            StreamBufferError::Unexpected => ParseError::Unexpected(UnexpectedState::BufferCapacityExceeded),
            StreamBufferError::InvalidSliceBounds => ParseError::Unexpected(UnexpectedState::InvalidSliceBounds),
        }
    }
}

impl vstd::std_specs::convert::FromSpecImpl<StreamBufferError> for ParseError {
    open spec fn obeys_from_spec() -> bool {
        true
    }

    open spec fn from_spec(err: StreamBufferError) -> Self {
        spec_stream_error(err)
    }
}

/// What copying `s[src_start..src_end]` to `dest` within `s` gives (memmove
/// semantics); out-of-range requests copy nothing, and the copy is cut at the
/// end of the sequence.
pub open spec fn spec_copy_within(s: Seq<u8>, src_start: usize, src_end: usize, dest: usize) -> Seq<u8> {
    let count = sat_sub(src_end, src_start);
    if count == 0 || src_start >= s.len() || src_end > s.len() || dest >= s.len() {
        s
    } else {
        let m = if s.len() - dest < count { s.len() - dest } else { count as int };
        Seq::new(s.len(), |k: int| if dest <= k < dest + m { s[src_start + (k - dest)] } else { s[k] })
    }
}

/// StreamBuffer manages a single buffer for both input and escape processing
///
/// Key design principles:
/// - Reader fills unused portions of buffer directly
/// - Unescaped content is copied to buffer start when needed
/// - Zero-copy string extraction when no escapes are present
/// - Guaranteed space for escape processing (unescaped ≤ escaped)
pub struct StreamBuffer<'a> {
    /// The entire buffer slice
    pub buffer: &'a mut [u8],
    /// Current position where tokenizer is reading
    pub tokenize_pos: usize,
    /// End of valid data from Reader (buffer[0..data_end] contains valid data)
    pub data_end: usize,
    /// Length of unescaped content at buffer start (0 if no unescaping active)
    pub unescaped_len: usize,
}

impl<'a> StreamBuffer<'a> {
    /// The bytes of the buffer.
    pub open spec fn data(&self) -> Seq<u8> {
        (*self.buffer)@
    }

    /// Panic-free copy_within implementation that handles overlapping ranges
    /// (memmove behaviour).
    fn safe_copy_within(&mut self, src_start: usize, src_end: usize, dest: usize)
        ensures
            final(self).data() == spec_copy_within(old(self).data(), src_start, src_end, dest),
            final(self).tokenize_pos == old(self).tokenize_pos,
            final(self).data_end == old(self).data_end,
            final(self).unescaped_len == old(self).unescaped_len,
    {
        let count = src_end.saturating_sub(src_start);
        let len = self.buffer.len();
        // Early return if nothing to copy or bounds are invalid
        if count == 0 || src_start >= len || src_end > len || dest >= len {
            return;
        }
        // Ensure dest + count doesn't exceed buffer
        let max_copy = if len - dest < count { len - dest } else { count };
        let ghost s = self.data();
        let ghost tp = self.tokenize_pos;
        let ghost de = self.data_end;
        let ghost ul = self.unescaped_len;
        let ghost target = spec_copy_within(s, src_start, src_end, dest);
        if dest <= src_start {
            let mut i: usize = 0;
            while i < max_copy
                invariant
                    i <= max_copy,
                    max_copy <= count,
                    max_copy <= len - dest,
                    count == src_end - src_start,
                    src_end <= len,
                    dest <= src_start,
                    len == s.len(),
                    self.data().len() == len,
                    self.tokenize_pos == tp,
                    self.data_end == de,
                    self.unescaped_len == ul,
                    forall|k: int| 0 <= k < len ==> #[trigger] self.data()[k] == if dest <= k < dest + i {
                        s[src_start + (k - dest)]
                    } else {
                        s[k]
                    },
                decreases max_copy - i,
            {
                let b = self.buffer[src_start + i];
                self.buffer[dest + i] = b;
                i = i + 1;
            }
        } else {
            let mut i: usize = max_copy;
            while i > 0
                invariant
                    i <= max_copy,
                    max_copy <= count,
                    max_copy <= len - dest,
                    count == src_end - src_start,
                    src_end <= len,
                    dest > src_start,
                    len == s.len(),
                    self.data().len() == len,
                    self.tokenize_pos == tp,
                    self.data_end == de,
                    self.unescaped_len == ul,
                    forall|k: int| 0 <= k < len ==> #[trigger] self.data()[k] == if dest + i <= k < dest + max_copy {
                        s[src_start + (k - dest)]
                    } else {
                        s[k]
                    },
                decreases i,
            {
                let b = self.buffer[src_start + i - 1];
                self.buffer[dest + i - 1] = b;
                i = i - 1;
            }
        }
        proof {
            assert(self.data() =~= target);
        }
    }

    /// Create a new StreamBuffer with the given buffer slice
    pub fn new(buffer: &'a mut [u8]) -> (r: Self)
        ensures
            r.data() == old(buffer)@,
            r.tokenize_pos == 0,
            r.data_end == 0,
            r.unescaped_len == 0,
    {
        Self { buffer, tokenize_pos: 0, data_end: 0, unescaped_len: 0 }
    }

    /// Get the current byte at tokenize position
    pub fn current_byte(&self) -> (r: Result<u8, StreamBufferError>)
        ensures
            r == if self.tokenize_pos >= self.data_end || self.tokenize_pos >= self.data().len() {
                Err::<u8, StreamBufferError>(StreamBufferError::EndOfData)
            } else {
                Ok::<u8, StreamBufferError>(self.data()[self.tokenize_pos as int])
            },
    {
        if self.tokenize_pos >= self.data_end {
            return Err(StreamBufferError::EndOfData);
        }
        if self.tokenize_pos < self.buffer.len() {
            Ok(self.buffer[self.tokenize_pos])
        } else {
            Err(StreamBufferError::EndOfData)
        }
    }

    /// Advance the tokenize position by one byte
    pub fn advance(&mut self) -> (r: Result<(), StreamBufferError>)
        ensures
            final(self).data() == old(self).data(),
            final(self).data_end == old(self).data_end,
            final(self).unescaped_len == old(self).unescaped_len,
            old(self).tokenize_pos >= old(self).data_end ==> r == Err::<(), StreamBufferError>(StreamBufferError::EndOfData)
                && final(self).tokenize_pos == old(self).tokenize_pos,
            old(self).tokenize_pos < old(self).data_end ==> r is Ok && final(self).tokenize_pos == old(self).tokenize_pos + 1,
    {
        if self.tokenize_pos >= self.data_end {
            return Err(StreamBufferError::EndOfData);
        }
        self.tokenize_pos = self.tokenize_pos + 1;
        Ok(())
    }

    /// Get remaining bytes available for reading
    pub fn remaining_bytes(&self) -> (r: usize)
        ensures
            r == sat_sub(self.data_end, self.tokenize_pos),
    {
        self.data_end.saturating_sub(self.tokenize_pos)
    }

    /// Get slice for Reader to fill with new data, the part of the buffer
    /// after the valid data; None if no space is left.
    pub fn get_fill_slice(&mut self) -> (r: Option<&mut [u8]>)
        ensures
            final(self).tokenize_pos == old(self).tokenize_pos,
            final(self).data_end == old(self).data_end,
            final(self).unescaped_len == old(self).unescaped_len,
            old(self).data_end >= old(self).data().len() ==> r is None && final(self).data() == old(self).data(),
            old(self).data_end < old(self).data().len() ==> (r matches Some(s)
                && s@ == old(self).data().subrange(old(self).data_end as int, old(self).data().len() as int)
                && final(self).data() == old(self).data().take(old(self).data_end as int) + final(s)@),
    {
        if self.data_end >= self.buffer.len() {
            return None;
        }
        let (_filled, rest) = self.buffer.split_at_mut(self.data_end);
        Some(rest)
    }

    /// Compact buffer by moving unprocessed data from a given start offset to
    /// the beginning. Returns the offset by which data was moved.
    pub fn compact_from(&mut self, start_offset: usize) -> (r: Result<usize, StreamBufferError>)
        ensures
            final(self).unescaped_len == old(self).unescaped_len,
            start_offset == 0 ==> r == Ok::<usize, StreamBufferError>(0) && *final(self) == *old(self),
            start_offset != 0 && start_offset >= old(self).data_end ==> r == Ok::<usize, StreamBufferError>(start_offset)
                && final(self).tokenize_pos == 0 && final(self).data_end == 0 && final(self).data() == old(self).data(),
            start_offset != 0 && start_offset < old(self).data_end && old(self).data_end - start_offset > old(self).data().len()
                ==> r == Err::<usize, StreamBufferError>(StreamBufferError::BufferFull) && *final(self) == *old(self),
            start_offset != 0 && start_offset < old(self).data_end && old(self).data_end - start_offset <= old(self).data().len()
                && old(self).data_end > old(self).data().len()
                ==> r == Err::<usize, StreamBufferError>(StreamBufferError::InvalidSliceBounds) && *final(self) == *old(self),
            start_offset != 0 && start_offset < old(self).data_end && old(self).data_end <= old(self).data().len() ==> {
                &&& r == Ok::<usize, StreamBufferError>(start_offset)
                &&& final(self).data() == spec_copy_within(old(self).data(), start_offset, old(self).data_end, 0)
                &&& final(self).tokenize_pos == sat_sub(old(self).tokenize_pos, start_offset)
                &&& final(self).data_end == old(self).data_end - start_offset
            },
    {
        if start_offset == 0 {
            // Already at start, no compaction possible
            return Ok(0);
        }
        let offset = start_offset;
        if start_offset >= self.data_end {
            // All data has been processed, reset to start
            self.tokenize_pos = 0;
            self.data_end = 0;
            return Ok(offset);
        }
        // Move unprocessed data to start of buffer
        let remaining_data = self.data_end - start_offset;
        let span_len = remaining_data;
        // Ensure the span fits in the buffer - return error instead of silent truncation
        if span_len > self.buffer.len() {
            return Err(StreamBufferError::BufferFull);
        }
        let src_range_end = start_offset + span_len;
        if src_range_end > self.buffer.len() {
            return Err(StreamBufferError::InvalidSliceBounds);
        }
        // Move data from [start_offset..end] to [0..span_len]
        self.safe_copy_within(start_offset, src_range_end, 0);
        // Update positions
        self.tokenize_pos = self.tokenize_pos.saturating_sub(offset);
        self.data_end = remaining_data;
        Ok(offset)
    }

    /// Mark that Reader filled `bytes_read` bytes. The new end is the old
    /// one plus `bytes_read`, wrapping around `usize` as the addition does;
    /// an end past the buffer is refused and the end stays.
    pub fn mark_filled(&mut self, bytes_read: usize) -> (r: Result<(), StreamBufferError>)
        ensures
            final(self).data() == old(self).data(),
            final(self).tokenize_pos == old(self).tokenize_pos,
            final(self).unescaped_len == old(self).unescaped_len,
            ({
                let new_end = wrap_add(old(self).data_end, bytes_read as nat);
                if new_end > old(self).data().len() {
                    r == Err::<(), StreamBufferError>(StreamBufferError::Unexpected) && final(self).data_end == old(self).data_end
                } else {
                    r is Ok && final(self).data_end == new_end
                }
            }),
    {
        let new_data_end = self.data_end.wrapping_add(bytes_read);
        if new_data_end > self.buffer.len() {
            return Err(StreamBufferError::Unexpected);
        }
        self.data_end = new_data_end;
        Ok(())
    }

    /// Start unescaping and copy existing content from a range in the buffer
    /// to its start. This handles the common case of starting escape
    /// processing partway through a string.
    pub fn start_unescaping_with_copy(&mut self, max_escaped_len: usize, copy_start: usize, copy_end: usize) -> (r: Result<(), StreamBufferError>)
        ensures
            final(self).tokenize_pos == old(self).tokenize_pos,
            final(self).data_end == old(self).data_end,
            ({
                let len = old(self).data().len();
                let copies = copy_end > copy_start && copy_start < old(self).data_end;
                if max_escaped_len > len {
                    r == Err::<(), StreamBufferError>(StreamBufferError::BufferFull) && final(self).unescaped_len == 0
                        && final(self).data() == old(self).data()
                } else if !copies {
                    r is Ok && final(self).unescaped_len == 0 && final(self).data() == old(self).data()
                } else if copy_end - copy_start > len {
                    r == Err::<(), StreamBufferError>(StreamBufferError::BufferFull) && final(self).unescaped_len == 0
                        && final(self).data() == old(self).data()
                } else if copy_end > len {
                    r == Err::<(), StreamBufferError>(StreamBufferError::InvalidSliceBounds) && final(self).unescaped_len == 0
                        && final(self).data() == old(self).data()
                } else {
                    &&& r is Ok
                    &&& final(self).unescaped_len == copy_end - copy_start
                    &&& final(self).data() == spec_copy_within(old(self).data(), copy_start, copy_end, 0)
                }
            }),
    {
        // Clear any previous unescaped content
        self.unescaped_len = 0;
        // Ensure we have space at the start for unescaping
        if max_escaped_len > self.buffer.len() {
            return Err(StreamBufferError::BufferFull);
        }
        // Copy existing content if there is any
        if copy_end > copy_start && copy_start < self.data_end {
            let span_len = copy_end - copy_start;
            // Ensure the span fits in the buffer - return error instead of silent truncation
            if span_len > self.buffer.len() {
                return Err(StreamBufferError::BufferFull);
            }
            let src_end = copy_start + span_len;
            if src_end > self.buffer.len() {
                return Err(StreamBufferError::InvalidSliceBounds);
            }
            // Move data from [copy_start..copy_end] to [0..span_len]
            self.safe_copy_within(copy_start, src_end, 0);
            self.unescaped_len = span_len;
        }
        Ok(())
    }

    /// Get the unescaped content slice
    pub fn get_unescaped_slice(&self) -> (r: Result<&[u8], StreamBufferError>)
        ensures
            self.unescaped_len == 0 ==> r == Err::<&[u8], StreamBufferError>(StreamBufferError::InvalidSliceBounds),
            self.unescaped_len > self.data().len() ==> r == Err::<&[u8], StreamBufferError>(StreamBufferError::Unexpected),
            0 < self.unescaped_len <= self.data().len() ==> (r matches Ok(s) && s@ == self.data().take(self.unescaped_len as int)),
    {
        if self.unescaped_len == 0 {
            return Err(StreamBufferError::InvalidSliceBounds);
        }
        if self.unescaped_len > self.buffer.len() {
            return Err(StreamBufferError::Unexpected);
        }
        let all: &[u8] = &*self.buffer;
        Ok(vstd::slice::slice_subrange(all, 0, self.unescaped_len))
    }

    /// Clear unescaped content (call after yielding unescaped string)
    pub fn clear_unescaped(&mut self)
        ensures
            *final(self) == (StreamBuffer { unescaped_len: 0, ..*old(self) }),
    {
        self.unescaped_len = 0;
    }

    /// Get current tokenize position (for string start tracking)
    pub fn current_position(&self) -> (r: usize)
        ensures
            r == self.tokenize_pos,
    {
        self.tokenize_pos
    }

    /// Check if buffer is empty (no more data to process)
    pub fn is_empty(&self) -> (r: bool)
        ensures
            r == (self.tokenize_pos >= self.data_end),
    {
        self.tokenize_pos >= self.data_end
    }

    /// Check if we have unescaped content ready
    pub fn has_unescaped_content(&self) -> (r: bool)
        ensures
            r == (self.unescaped_len > 0),
    {
        self.unescaped_len > 0
    }

    /// Append a single byte to the unescaped content
    pub fn append_unescaped_byte(&mut self, byte: u8) -> (r: Result<(), StreamBufferError>)
        ensures
            final(self).tokenize_pos == old(self).tokenize_pos,
            final(self).data_end == old(self).data_end,
            old(self).unescaped_len < old(self).data().len() ==> r is Ok
                && final(self).data() == old(self).data().update(old(self).unescaped_len as int, byte)
                && final(self).unescaped_len == old(self).unescaped_len + 1,
            old(self).unescaped_len >= old(self).data().len() ==> r == Err::<(), StreamBufferError>(StreamBufferError::BufferFull)
                && final(self).data() == old(self).data() && final(self).unescaped_len == old(self).unescaped_len,
    {
        if self.unescaped_len < self.buffer.len() {
            let pos = self.unescaped_len;
            self.buffer[pos] = byte;
            self.unescaped_len = pos + 1;
            Ok(())
        } else {
            Err(StreamBufferError::BufferFull)
        }
    }

    /// Append bytes to the unescaped content, when they all fit.
    pub fn append_unescaped_slice(&mut self, bytes: &[u8]) -> (r: Result<(), StreamBufferError>)
        ensures
            final(self).tokenize_pos == old(self).tokenize_pos,
            final(self).data_end == old(self).data_end,
            old(self).unescaped_len + bytes@.len() <= old(self).data().len() ==> r is Ok
                && final(self).unescaped_len == old(self).unescaped_len + bytes@.len()
                && final(self).data() == old(self).data().take(old(self).unescaped_len as int) + bytes@
                + old(self).data().skip(old(self).unescaped_len + bytes@.len()),
            old(self).unescaped_len + bytes@.len() > old(self).data().len() ==> r == Err::<(), StreamBufferError>(
                StreamBufferError::BufferFull,
            ) && *final(self) == *old(self),
    {
        let len = self.buffer.len();
        if self.unescaped_len > len || bytes.len() > len - self.unescaped_len {
            return Err(StreamBufferError::BufferFull);
        }
        let start = self.unescaped_len;
        let n = bytes.len();
        let ghost s0 = self.data();
        let mut i: usize = 0;
        while i < n
            invariant
                i <= n,
                n == bytes@.len(),
                start + n <= len,
                len == s0.len(),
                self.data().len() == len,
                self.unescaped_len == start,
                self.tokenize_pos == old(self).tokenize_pos,
                self.data_end == old(self).data_end,
                forall|k: int| 0 <= k < len ==> #[trigger] self.data()[k] == if start <= k < start + i {
                    bytes@[k - start]
                } else {
                    s0[k]
                },
            decreases n - i,
        {
            self.buffer[start + i] = bytes[i];
            i = i + 1;
        }
        self.unescaped_len = start + n;
        proof {
            assert(self.data() =~= s0.take(start as int) + bytes@ + s0.skip(start + n));
        }
        Ok(())
    }

    /// Truncate unescaped content by removing the specified number of bytes from the end
    pub fn truncate_unescaped_by(&mut self, count: usize)
        ensures
            *final(self) == (StreamBuffer { unescaped_len: sat_sub(old(self).unescaped_len, count), ..*old(self) }),
    {
        self.unescaped_len = self.unescaped_len.saturating_sub(count);
    }

    /// Get a string slice from the buffer (zero-copy).
    /// Used for strings without escapes
    pub fn get_string_slice(&self, start: usize, end: usize) -> (r: Result<&[u8], StreamBufferError>)
        ensures
            start <= end <= self.data_end && end <= self.data().len() ==> (r matches Ok(s)
                && s@ == self.data().subrange(start as int, end as int)),
            !(start <= end <= self.data_end && end <= self.data().len()) ==> r == Err::<&[u8], StreamBufferError>(
                StreamBufferError::InvalidSliceBounds,
            ),
    {
        if start > end || end > self.data_end {
            return Err(StreamBufferError::InvalidSliceBounds);
        }
        if end > self.buffer.len() {
            return Err(StreamBufferError::InvalidSliceBounds);
        }
        let all: &[u8] = &*self.buffer;
        Ok(vstd::slice::slice_subrange(all, start, end))
    }
}

} // verus!

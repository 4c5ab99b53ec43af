//! A single buffer for input and escape processing that keeps a reserve for
//! unescaping.

use vstd::prelude::*;

use crate::shared::sat_sub;
use crate::stream_buffer::spec_copy_within;

verus! {

/// Error types for DirectBuffer operations
#[derive(Debug, PartialEq, Eq, Clone, Copy)]
pub enum DirectBufferError {
    /// Buffer is full and cannot accommodate more data
    BufferFull,
    /// Attempted to read beyond available data
    EndOfData,
    /// Invalid buffer state or operation
    InvalidState(&'static str),
}

/// The escape reserve for a buffer of length `len`: a tenth of it, at least 64 bytes.
pub open spec fn spec_escape_reserve(len: nat) -> nat {
    if len / 10 > 64 {
        len / 10
    } else {
        64
    }
}

/// DirectBuffer manages a single buffer for both input and escape processing
///
/// Key design principles:
/// - Reader fills unused portions of buffer directly
/// - Unescaped content is copied to buffer start when needed
/// - Zero-copy string extraction when no escapes are present
/// - Guaranteed space for escape processing (unescaped ≤ escaped)
pub struct DirectBuffer<'a> {
    /// The entire buffer slice
    pub buffer: &'a mut [u8],
    /// Current position where tokenizer is reading
    pub tokenize_pos: usize,
    /// End of valid data from Reader (buffer[0..data_end] contains valid data)
    pub data_end: usize,
    /// Length of unescaped content at buffer start (0 if no unescaping active)
    pub unescaped_len: usize,
    /// Minimum space to reserve for escape processing
    pub escape_reserve: usize,
}

/// Statistics for DirectBuffer state (useful for debugging and testing)
#[derive(Debug, PartialEq, Eq)]
pub struct DirectBufferStats {
    pub total_capacity: usize,
    pub tokenize_pos: usize,
    pub data_end: usize,
    pub unescaped_len: usize,
    pub remaining_bytes: usize,
    pub available_space: usize,
    pub escape_reserve: usize,
}

impl<'a> DirectBuffer<'a> {
    /// The bytes of the buffer.
    pub open spec fn data(&self) -> Seq<u8> {
        (*self.buffer)@
    }

    /// The valid data and the unescaped content lie within the buffer.
    pub open spec fn wf(&self) -> bool {
        self.data_end <= self.data().len() && self.unescaped_len <= self.data().len()
    }

    /// Create a new DirectBuffer with the given buffer slice
    pub fn new(buffer: &'a mut [u8]) -> (r: Self)
        ensures
            r.wf(),
            r.data() == old(buffer)@,
            r.tokenize_pos == 0,
            r.data_end == 0,
            r.unescaped_len == 0,
            r.escape_reserve == spec_escape_reserve(old(buffer)@.len()),
    {
        // Reserve 10% of buffer for escape processing, minimum 64 bytes
        let tenth = buffer.len() / 10;
        let escape_reserve = if tenth > 64 { tenth } else { 64 };
        Self { buffer, tokenize_pos: 0, data_end: 0, unescaped_len: 0, escape_reserve }
    }

    /// Get the current byte at tokenize position
    pub fn current_byte(&self) -> (r: Result<u8, DirectBufferError>)
        requires
            self.wf(),
        ensures
            r == if self.tokenize_pos >= self.data_end {
                Err::<u8, DirectBufferError>(DirectBufferError::EndOfData)
            } else {
                Ok::<u8, DirectBufferError>(self.data()[self.tokenize_pos as int])
            },
    {
        if self.tokenize_pos >= self.data_end {
            return Err(DirectBufferError::EndOfData);
        }
        Ok(self.buffer[self.tokenize_pos])
    }

    /// Advance the tokenize position by one byte
    pub fn advance(&mut self) -> (r: Result<(), DirectBufferError>)
        ensures
            final(self).data() == old(self).data(),
            final(self).data_end == old(self).data_end,
            final(self).unescaped_len == old(self).unescaped_len,
            final(self).escape_reserve == old(self).escape_reserve,
            old(self).tokenize_pos >= old(self).data_end ==> r == Err::<(), DirectBufferError>(DirectBufferError::EndOfData)
                && final(self).tokenize_pos == old(self).tokenize_pos,
            old(self).tokenize_pos < old(self).data_end ==> r is Ok && final(self).tokenize_pos == old(self).tokenize_pos + 1,
    {
        if self.tokenize_pos >= self.data_end {
            return Err(DirectBufferError::EndOfData);
        }
        self.tokenize_pos += 1;
        Ok(())
    }

    /// Get remaining bytes available for reading
    pub fn remaining_bytes(&self) -> (r: usize)
        ensures
            r == sat_sub(self.data_end, self.tokenize_pos),
    {
        self.data_end.saturating_sub(self.tokenize_pos)
    }

    /// Get slice for Reader to fill with new data; None if no space available
    pub fn get_fill_slice(&mut self) -> (r: Option<&mut [u8]>)
        ensures
            final(self).tokenize_pos == old(self).tokenize_pos,
            final(self).data_end == old(self).data_end,
            final(self).unescaped_len == old(self).unescaped_len,
            final(self).escape_reserve == old(self).escape_reserve,
            old(self).data_end >= old(self).data().len() ==> r is None && final(self).data() == old(self).data(),
            old(self).data_end < old(self).data().len() ==> (r matches Some(s)
                && s@ == old(self).data().subrange(old(self).data_end as int, old(self).data().len() as int)
                && final(self).data() == old(self).data().take(old(self).data_end as int) + final(s)@),
    {
        if self.data_end >= self.buffer.len() {
            return None;
        }
        let (_filled, rest) = self.buffer.split_at_mut(self.data_end);
        Some(rest)
    }

    /// Mark that Reader filled `bytes_read` bytes
    pub fn mark_filled(&mut self, bytes_read: usize) -> (r: Result<(), DirectBufferError>)
        ensures
            final(self).data() == old(self).data(),
            final(self).tokenize_pos == old(self).tokenize_pos,
            final(self).unescaped_len == old(self).unescaped_len,
            final(self).escape_reserve == old(self).escape_reserve,
            old(self).data_end + bytes_read > old(self).data().len() ==> r == Err::<(), DirectBufferError>(
                DirectBufferError::InvalidState("Attempted to mark more bytes than buffer space"),
            ) && final(self).data_end == old(self).data_end,
            old(self).data_end + bytes_read <= old(self).data().len() ==> r is Ok && final(self).data_end == old(self).data_end
                + bytes_read,
    {
        match self.data_end.checked_add(bytes_read) {
            Some(new_end) => {
                if new_end > self.buffer.len() {
                    return Err(DirectBufferError::InvalidState("Attempted to mark more bytes than buffer space"));
                }
                self.data_end = new_end;
                Ok(())
            },
            None => {
                let buffer_len: usize = self.buffer.len();
                proof {
                    assert(self.data().len() == buffer_len);
                }
                Err(DirectBufferError::InvalidState("Attempted to mark more bytes than buffer space"))
            },
        }
    }

    /// Copies `buffer[src_start..src_end]` to the front, handling overlap.
    fn copy_to_front(&mut self, src_start: usize, src_end: usize)
        requires
            src_start < src_end <= old(self).data().len(),
        ensures
            final(self).data() == spec_copy_within(old(self).data(), src_start, src_end, 0),
            final(self).tokenize_pos == old(self).tokenize_pos,
            final(self).data_end == old(self).data_end,
            final(self).unescaped_len == old(self).unescaped_len,
            final(self).escape_reserve == old(self).escape_reserve,
    {
        let ghost s = self.data();
        let ghost tp = self.tokenize_pos;
        let ghost de = self.data_end;
        let ghost ul = self.unescaped_len;
        let ghost er = self.escape_reserve;
        let count = src_end - src_start;
        let mut i: usize = 0;
        while i < count
            invariant
                i <= count,
                count == src_end - src_start,
                src_end <= s.len(),
                self.data().len() == s.len(),
                self.tokenize_pos == tp,
                self.data_end == de,
                self.unescaped_len == ul,
                self.escape_reserve == er,
                forall|k: int| 0 <= k < s.len() ==> #[trigger] self.data()[k] == if 0 <= k < i {
                    s[src_start + k]
                } else {
                    s[k]
                },
            decreases count - i,
        {
            let b = self.buffer[src_start + i];
            self.buffer[i] = b;
            i = i + 1;
        }
        proof {
            assert(self.data() =~= spec_copy_within(s, src_start, src_end, 0));
        }
    }

    /// Start unescaping and copy existing content from a range in the buffer
    /// to its start.
    pub fn start_unescaping_with_copy(&mut self, max_escaped_len: usize, copy_start: usize, copy_end: usize) -> (r: Result<(), DirectBufferError>)
        requires
            old(self).wf(),
        ensures
            final(self).wf(),
            final(self).tokenize_pos == old(self).tokenize_pos,
            final(self).data_end == old(self).data_end,
            final(self).escape_reserve == old(self).escape_reserve,
            ({
                let len = old(self).data().len();
                let copies = copy_end > copy_start && copy_start < old(self).data_end;
                if max_escaped_len > len {
                    r == Err::<(), DirectBufferError>(DirectBufferError::BufferFull) && final(self).unescaped_len == 0
                        && final(self).data() == old(self).data()
                } else if !copies {
                    r is Ok && final(self).unescaped_len == 0 && final(self).data() == old(self).data()
                } else if copy_end - copy_start > len {
                    r == Err::<(), DirectBufferError>(DirectBufferError::BufferFull) && final(self).unescaped_len == 0
                        && final(self).data() == old(self).data()
                } else if copy_end > len {
                    r == Err::<(), DirectBufferError>(DirectBufferError::InvalidState("Invalid slice bounds"))
                        && final(self).unescaped_len == 0 && final(self).data() == old(self).data()
                } else {
                    &&& r is Ok
                    &&& final(self).unescaped_len == copy_end - copy_start
                    &&& final(self).data() == spec_copy_within(old(self).data(), copy_start, copy_end, 0)
                }
            }),
    {
        // Clear any previous unescaped content
        self.unescaped_len = 0;
        // Ensure we have space at the start for unescaping
        if max_escaped_len > self.buffer.len() {
            return Err(DirectBufferError::BufferFull);
        }
        // Copy existing content if there is any
        if copy_end > copy_start && copy_start < self.data_end {
            let span_len = copy_end - copy_start;
            // Ensure the span fits in the buffer - return error instead of silent truncation
            if span_len > self.buffer.len() {
                return Err(DirectBufferError::BufferFull);
            }
            if copy_end > self.buffer.len() {
                return Err(DirectBufferError::InvalidState("Invalid slice bounds"));
            }
            // Move data from [copy_start..copy_end] to [0..span_len]
            self.copy_to_front(copy_start, copy_start + span_len);
            self.unescaped_len = span_len;
        }
        Ok(())
    }

    /// Get the unescaped content slice
    pub fn get_unescaped_slice(&self) -> (r: Result<&[u8], DirectBufferError>)
        requires
            self.wf(),
        ensures
            self.unescaped_len == 0 ==> r == Err::<&[u8], DirectBufferError>(
                DirectBufferError::InvalidState("No unescaped content available"),
            ),
            self.unescaped_len > 0 ==> (r matches Ok(s) && s@ == self.data().take(self.unescaped_len as int)),
    {
        if self.unescaped_len == 0 {
            return Err(DirectBufferError::InvalidState("No unescaped content available"));
        }
        let all: &[u8] = &*self.buffer;
        Ok(vstd::slice::slice_subrange(all, 0, self.unescaped_len))
    }

    /// Clear unescaped content (call after yielding unescaped string)
    pub fn clear_unescaped(&mut self)
        ensures
            *final(self) == (DirectBuffer { unescaped_len: 0, ..*old(self) }),
    {
        self.unescaped_len = 0;
    }

    /// Get current tokenize position (for string start tracking)
    pub fn current_position(&self) -> (r: usize)
        ensures
            r == self.tokenize_pos,
    {
        self.tokenize_pos
    }

    /// Check if buffer is empty (no more data to process)
    pub fn is_empty(&self) -> (r: bool)
        ensures
            r == (self.tokenize_pos >= self.data_end),
    {
        self.tokenize_pos >= self.data_end
    }

    /// Check if we have unescaped content ready
    pub fn has_unescaped_content(&self) -> (r: bool)
        ensures
            r == (self.unescaped_len > 0),
    {
        self.unescaped_len > 0
    }

    /// Append a single byte to the unescaped content, keeping the escape reserve free.
    pub fn append_unescaped_byte(&mut self, byte: u8) -> (r: Result<(), DirectBufferError>)
        ensures
            final(self).tokenize_pos == old(self).tokenize_pos,
            final(self).data_end == old(self).data_end,
            final(self).escape_reserve == old(self).escape_reserve,
            old(self).unescaped_len >= sat_sub(old(self).data().len() as usize, old(self).escape_reserve) ==> r
                == Err::<(), DirectBufferError>(DirectBufferError::BufferFull) && final(self).data() == old(self).data()
                && final(self).unescaped_len == old(self).unescaped_len,
            old(self).unescaped_len < sat_sub(old(self).data().len() as usize, old(self).escape_reserve) ==> r is Ok
                && final(self).data() == old(self).data().update(old(self).unescaped_len as int, byte)
                && final(self).unescaped_len == old(self).unescaped_len + 1,
    {
        let available_space = self.buffer.len().saturating_sub(self.escape_reserve);
        if self.unescaped_len >= available_space {
            return Err(DirectBufferError::BufferFull);
        }
        let pos = self.unescaped_len;
        self.buffer[pos] = byte;
        self.unescaped_len += 1;
        Ok(())
    }

    /// Get a string slice from the buffer (zero-copy).
    /// Used for strings without escapes
    pub fn get_string_slice(&self, start: usize, end: usize) -> (r: Result<&[u8], DirectBufferError>)
        requires
            self.wf(),
        ensures
            start <= end <= self.data_end ==> (r matches Ok(s) && s@ == self.data().subrange(start as int, end as int)),
            !(start <= end <= self.data_end) ==> r == Err::<&[u8], DirectBufferError>(
                DirectBufferError::InvalidState("Invalid slice bounds"),
            ),
    {
        if start > end || end > self.data_end {
            return Err(DirectBufferError::InvalidState("Invalid slice bounds"));
        }
        let all: &[u8] = &*self.buffer;
        Ok(vstd::slice::slice_subrange(all, start, end))
    }

    /// Get buffer statistics for debugging
    pub fn stats(&self) -> (r: DirectBufferStats)
        ensures
            r == (DirectBufferStats {
                total_capacity: self.data().len() as usize,
                tokenize_pos: self.tokenize_pos,
                data_end: self.data_end,
                unescaped_len: self.unescaped_len,
                remaining_bytes: sat_sub(self.data_end, self.tokenize_pos),
                available_space: sat_sub(self.data().len() as usize, self.data_end),
                escape_reserve: self.escape_reserve,
            }),
    {
        DirectBufferStats {
            total_capacity: self.buffer.len(),
            tokenize_pos: self.tokenize_pos,
            data_end: self.data_end,
            unescaped_len: self.unescaped_len,
            remaining_bytes: self.remaining_bytes(),
            available_space: self.buffer.len().saturating_sub(self.data_end),
            escape_reserve: self.escape_reserve,
        }
    }
}

} // verus!

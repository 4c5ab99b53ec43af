//! Copy-on-escape string extraction for the slice parser: strings without
//! escapes are borrowed from the input, the others are unescaped into a
//! scratch buffer.

use vstd::prelude::*;
use vstd::string::StringSliceAdditionalSpecFns;
use vstd::utf8::valid_utf8;

use crate::json_string::String;
use crate::parse_error::{ParseError, UnexpectedState};
use crate::escape_processor::{unicode_escape_result, UnicodeEscapeCollector};
use crate::shared::{from_utf8, sat_sub};

verus! {

/// `x + y`, or `usize::MAX` when the sum does not fit.
pub open spec fn sat_add(x: usize, y: usize) -> usize {
    if x + y > usize::MAX {
        usize::MAX
    } else {
        (x + y) as usize
    }
}

/// `s` with the bytes from `at` on overwritten by `piece` (as far as `s`
/// reaches).
pub open spec fn splice(s: Seq<u8>, at: int, piece: Seq<u8>) -> Seq<u8> {
    Seq::new(s.len(), |k: int| if at <= k < at + piece.len() { piece[k - at] } else { s[k] })
}

/// What `handle_escape` does, from `o` to `f`, returning `r`.
pub open spec fn escape_handled<'a, 'b>(
    f: CopyOnEscape<'a, 'b>,
    o: CopyOnEscape<'a, 'b>,
    pos: usize,
    unescaped_char: u8,
    r: Result<(), ParseError>,
) -> bool {
    &&& f.input == o.input
    &&& f.global_scratch_pos == o.global_scratch_pos
    &&& f.string_start == o.string_start
    &&& f.using_scratch
    &&& f.scratch_start == o.scratch_start
    &&& ({
                    let b = sat_sub(pos, 2);
                    let span = o.pending_span(b);
                    let sp = o.scratch_pos;
                    match o.span_error(b, 1) {
                        Some(e) => r == Err::<(), ParseError>(e) && f.scratch_pos == sp
                            && f.scratch_bytes() == o.scratch_bytes()
                            && f.last_copied_pos == o.last_copied_pos,
                        None => if sp + span.len() >= o.scratch_bytes().len() {
                            r == Err::<(), ParseError>(ParseError::ScratchBufferFull)
                                && f.scratch_pos == sp + span.len()
                                && f.scratch_bytes() == splice(o.scratch_bytes(), sp as int, span)
                                && f.last_copied_pos == o.last_copied_pos
                        } else {
                            r is Ok && f.scratch_pos == sp + span.len() + 1
                                && f.scratch_bytes() == splice(
                                    o.scratch_bytes(),
                                    sp as int,
                                    span.push(unescaped_char),
                                )
                                && f.last_copied_pos == pos
                        },
                    }
    })
}

/// What `handle_unicode_escape` does, from `o` to `f`, returning `r`.
pub open spec fn unicode_handled<'a, 'b>(
    f: CopyOnEscape<'a, 'b>,
    o: CopyOnEscape<'a, 'b>,
    start_pos: usize,
    utf8_bytes: Seq<u8>,
    r: Result<(), ParseError>,
) -> bool {
    &&& f.input == o.input
    &&& f.global_scratch_pos == o.global_scratch_pos
    &&& f.string_start == o.string_start
    &&& f.using_scratch
    &&& f.scratch_start == o.scratch_start
    &&& ({
                    let span = o.pending_span(start_pos);
                    let sp = o.scratch_pos;
                    match o.span_error(start_pos, utf8_bytes.len() as usize) {
                        Some(e) => r == Err::<(), ParseError>(e) && f.scratch_pos == sp
                            && f.scratch_bytes() == o.scratch_bytes()
                            && f.last_copied_pos == o.last_copied_pos,
                        None => if sp + span.len() + utf8_bytes.len() > usize::MAX {
                            r == Err::<(), ParseError>(ParseError::NumericOverflow)
                                && f.scratch_pos == sp + span.len()
                                && f.scratch_bytes() == splice(o.scratch_bytes(), sp as int, span)
                                && f.last_copied_pos == o.last_copied_pos
                        } else if sp + span.len() + utf8_bytes.len() > o.scratch_bytes().len() {
                            r == Err::<(), ParseError>(ParseError::ScratchBufferFull)
                                && f.scratch_pos == sp + span.len()
                                && f.scratch_bytes() == splice(o.scratch_bytes(), sp as int, span)
                                && f.last_copied_pos == o.last_copied_pos
                        } else {
                            r is Ok && f.scratch_pos == sp + span.len() + utf8_bytes.len()
                                && f.scratch_bytes() == splice(
                                    o.scratch_bytes(),
                                    sp as int,
                                    span + utf8_bytes,
                                )
                                && f.last_copied_pos == sat_add(start_pos, 6)
                        },
                    }
    })
}

/// What `begin_string(pos)` does, from `o` to `f`: a string begins at
/// `pos`, with nothing copied yet.
pub open spec fn string_begun<'a, 'b>(f: CopyOnEscape<'a, 'b>, o: CopyOnEscape<'a, 'b>, pos: usize) -> bool {
    &&& f.input == o.input
    &&& f.scratch_bytes() == o.scratch_bytes()
    &&& f.global_scratch_pos == o.global_scratch_pos
    &&& f.string_start == pos
    &&& f.last_copied_pos == pos
    &&& !f.using_scratch
    &&& f.scratch_start == o.global_scratch_pos
    &&& f.scratch_pos == o.global_scratch_pos
}

/// What a complete `\\uXXXX` escape whose digits end just before `pos` in
/// the input does, from copy-on-escape state `o` and collector `o_coll` to
/// `f` and `f_coll`, returning `r`: digits outside the input fail with
/// nothing changed; an escape that is not valid fails; a high surrogate
/// waits in the collector with nothing copied; otherwise the input up to the
/// escape (for a pair, the first half's), and then the UTF-8 bytes, go to
/// the scratch buffer (see [`unicode_handled`]; for a pair the input up to
/// the first half goes first, with no bytes).
pub open spec fn unicode_escape_copied<'a, 'b>(
    f: CopyOnEscape<'a, 'b>,
    o: CopyOnEscape<'a, 'b>,
    f_coll: UnicodeEscapeCollector,
    o_coll: UnicodeEscapeCollector,
    pos: usize,
    r: Result<(), ParseError>,
) -> bool {
    if pos > o.input@.len() {
        r == Err::<(), ParseError>(ParseError::Unexpected(UnexpectedState::InvalidSliceBounds)) && f == o && f_coll
            == o_coll
    } else {
        match unicode_escape_result(
            o.input@.subrange(sat_sub(pos, 4) as int, pos as int),
            o_coll.digits(),
            o_coll.pending(),
        ) {
            None => r is Err && f == o,
            Some((None, p)) => r is Ok && f == o && f_coll.pending() == p,
            Some((Some(b), p)) => f_coll.pending() == p && if o_coll.pending() is Some {
                let es0 = sat_sub(sat_sub(pos, 6), 6);
                exists|m: CopyOnEscape<'a, 'b>, r1: Result<(), ParseError>|
                    #![trigger unicode_handled(m, o, es0, Seq::<u8>::empty(), r1)]
                    unicode_handled(m, o, es0, Seq::<u8>::empty(), r1) && if r1 is Err {
                        r == r1 && f == m
                    } else {
                        unicode_handled(f, m, (es0 + 6) as usize, b, r)
                    }
            } else {
                unicode_handled(f, o, sat_sub(pos, 6), b, r)
            },
        }
    }
}

/// A struct that encapsulates copy-on-escape string processing with full buffer ownership.
///
/// This version owns the scratch buffer for the entire parser lifetime. The
/// buffer is reused across multiple string operations via `begin_string` calls.
pub struct CopyOnEscape<'a, 'b> {
    /// Reference to the input data being parsed
    pub input: &'a [u8],
    /// Owned mutable reference to the scratch buffer for unescaping
    pub scratch: &'b mut [u8],
    /// Global position in the scratch buffer (never resets)
    pub global_scratch_pos: usize,
    /// Where the current string started in the input
    pub string_start: usize,
    /// Position in input where we last copied from (for span copying)
    pub last_copied_pos: usize,
    /// Whether we've encountered any escapes (and thus are using scratch buffer)
    pub using_scratch: bool,
    /// Starting position in scratch buffer for this string
    pub scratch_start: usize,
    /// Current position in scratch buffer for this string
    pub scratch_pos: usize,
}

impl<'a, 'b> CopyOnEscape<'a, 'b> {
    /// The bytes of the scratch buffer.
    pub open spec fn scratch_bytes(&self) -> Seq<u8> {
        (*self.scratch)@
    }

    /// The input bytes from the last copied position up to `end`, that a copy
    /// up to `end` moves to the scratch buffer.
    pub open spec fn pending_span(&self, end: usize) -> Seq<u8> {
        if self.last_copied_pos < end && end <= self.input@.len() {
            self.input@.subrange(self.last_copied_pos as int, end as int)
        } else {
            Seq::empty()
        }
    }

    /// The error, if any, of copying the pending input up to `end` into the
    /// scratch buffer with `extra` more bytes to follow it.
    pub open spec fn span_error(&self, end: usize, extra: usize) -> Option<ParseError> {
        if end <= self.last_copied_pos {
            None
        } else if end > self.input@.len() {
            Some(ParseError::Unexpected(UnexpectedState::InvalidSliceBounds))
        } else if self.scratch_pos + (end - self.last_copied_pos) + extra > usize::MAX {
            Some(ParseError::NumericOverflow)
        } else if self.scratch_pos + (end - self.last_copied_pos) + extra > self.scratch_bytes().len() {
            Some(ParseError::ScratchBufferFull)
        } else {
            None
        }
    }

    /// Creates a new CopyOnEscape processor with full buffer ownership.
    pub fn new(input: &'a [u8], scratch: &'b mut [u8]) -> (r: Self)
        ensures
            r.input@ == input@,
            r.scratch_bytes() == old(scratch)@,
            r.global_scratch_pos == 0,
            r.string_start == 0,
            r.last_copied_pos == 0,
            !r.using_scratch,
            r.scratch_start == 0,
            r.scratch_pos == 0,
    {
        Self {
            input,
            scratch,
            global_scratch_pos: 0,
            string_start: 0,
            last_copied_pos: 0,
            using_scratch: false,
            scratch_start: 0,
            scratch_pos: 0,
        }
    }

    /// Resets the processor for a new string at the given position.
    /// The scratch buffer position continues from where previous strings left off.
    pub fn begin_string(&mut self, pos: usize)
        ensures
            string_begun(*final(self), *old(self), pos),
            final(self).input == old(self).input,
            final(self).scratch_bytes() == old(self).scratch_bytes(),
            final(self).global_scratch_pos == old(self).global_scratch_pos,
            final(self).string_start == pos,
            final(self).last_copied_pos == pos,
            !final(self).using_scratch,
            final(self).scratch_start == old(self).global_scratch_pos,
            final(self).scratch_pos == old(self).global_scratch_pos,
    {
        self.string_start = pos;
        self.last_copied_pos = pos;
        self.using_scratch = false;
        self.scratch_start = self.global_scratch_pos;
        self.scratch_pos = self.global_scratch_pos;
    }

    /// Copies the input from the last copied position to `end` into the
    /// scratch buffer, checking that `extra_space` more bytes fit after it.
    fn copy_span_to_scratch(&mut self, end: usize, extra_space: usize) -> (r: Result<(), ParseError>)
        ensures
            final(self).input == old(self).input,
            final(self).global_scratch_pos == old(self).global_scratch_pos,
            final(self).string_start == old(self).string_start,
            final(self).last_copied_pos == old(self).last_copied_pos,
            final(self).using_scratch == old(self).using_scratch,
            final(self).scratch_start == old(self).scratch_start,
            match old(self).span_error(end, extra_space) {
                Some(e) => r == Err::<(), ParseError>(e) && final(self).scratch_pos == old(self).scratch_pos
                    && final(self).scratch_bytes() == old(self).scratch_bytes(),
                None => r is Ok && final(self).scratch_pos == old(self).scratch_pos + old(self).pending_span(end).len()
                    && final(self).scratch_bytes() == splice(
                        old(self).scratch_bytes(),
                        old(self).scratch_pos as int,
                        old(self).pending_span(end),
                    ),
            },
    {
        if end > self.last_copied_pos {
            if end > self.input.len() {
                return Err(ParseError::Unexpected(UnexpectedState::InvalidSliceBounds));
            }
            let span_len = end - self.last_copied_pos;
            let end_pos = match self.scratch_pos.checked_add(span_len) {
                Some(v) => v,
                None => return Err(ParseError::NumericOverflow),
            };
            let limit = match end_pos.checked_add(extra_space) {
                Some(v) => v,
                None => return Err(ParseError::NumericOverflow),
            };
            if limit > self.scratch.len() {
                return Err(ParseError::ScratchBufferFull);
            }
            let ghost s0 = self.scratch_bytes();
            let ghost span = old(self).pending_span(end);
            let from = self.last_copied_pos;
            let at = self.scratch_pos;
            let input = self.input;
            let mut i: usize = 0;
            while i < span_len
                invariant
                    i <= span_len,
                    span_len == end - from,
                    from + span_len <= input@.len(),
                    at + span_len <= s0.len(),
                    at + span_len == end_pos,
                    span == input@.subrange(from as int, end as int),
                    self.scratch_bytes().len() == s0.len(),
                    forall|k: int| 0 <= k < s0.len() ==> #[trigger] self.scratch_bytes()[k] == if at <= k < at + i {
                        span[k - at]
                    } else {
                        s0[k]
                    },
                    self.input == input,
                    self.global_scratch_pos == old(self).global_scratch_pos,
                    self.string_start == old(self).string_start,
                    self.last_copied_pos == from,
                    self.using_scratch == old(self).using_scratch,
                    self.scratch_start == old(self).scratch_start,
                    self.scratch_pos == at,
                decreases span_len - i,
            {
                self.scratch[at + i] = input[from + i];
                i = i + 1;
            }
            self.scratch_pos = end_pos;
            proof {
                assert(self.scratch_bytes() =~= splice(s0, at as int, span));
            }
        }
        Ok(())
    }

    /// Handles an escape sequence ending just before `pos`: the input up to
    /// the backslash (at `pos - 2`) and then `unescaped_char` go to the
    /// scratch buffer. This turns copy-on-escape on for the current string.
    pub fn handle_escape(&mut self, pos: usize, unescaped_char: u8) -> (r: Result<(), ParseError>)
        ensures
            escape_handled(*final(self), *old(self), pos, unescaped_char, r),
    {
        self.using_scratch = true;
        let backslash_pos = pos.saturating_sub(2);
        if let Err(e) = self.copy_span_to_scratch(backslash_pos, 1) {
            return Err(e);
        }
        let ghost mid = self.scratch_bytes();
        if self.scratch_pos >= self.scratch.len() {
            return Err(ParseError::ScratchBufferFull);
        }
        let at = self.scratch_pos;
        self.scratch[at] = unescaped_char;
        self.scratch_pos = at + 1;
        self.last_copied_pos = pos;
        proof {
            let span = old(self).pending_span(backslash_pos);
            let sp = old(self).scratch_pos as int;
            let s0 = old(self).scratch_bytes();
            assert(self.scratch_bytes() =~= splice(s0, sp, span.push(unescaped_char)));
        }
        Ok(())
    }

    /// Handles a Unicode escape sequence (`\uXXXX`, 6 bytes of input starting
    /// at `start_pos`, the backslash) by writing its UTF-8 encoding to the
    /// scratch buffer. This turns copy-on-escape on for the current string.
    pub fn handle_unicode_escape(&mut self, start_pos: usize, utf8_bytes: &[u8]) -> (r: Result<(), ParseError>)
        ensures
            unicode_handled(*final(self), *old(self), start_pos, utf8_bytes@, r),
    {
        self.using_scratch = true;
        if let Err(e) = self.copy_span_to_scratch(start_pos, utf8_bytes.len()) {
            return Err(e);
        }
        let at = self.scratch_pos;
        let new_scratch_pos = match at.checked_add(utf8_bytes.len()) {
            Some(v) => v,
            None => return Err(ParseError::NumericOverflow),
        };
        if new_scratch_pos > self.scratch.len() {
            return Err(ParseError::ScratchBufferFull);
        }
        let ghost s0 = self.scratch_bytes();
        let n = utf8_bytes.len();
        let mut i: usize = 0;
        while i < n
            invariant
                i <= n,
                n == utf8_bytes@.len(),
                at + n <= s0.len(),
                at + n == new_scratch_pos,
                self.scratch_bytes().len() == s0.len(),
                forall|k: int| 0 <= k < s0.len() ==> #[trigger] self.scratch_bytes()[k] == if at <= k < at + i {
                    utf8_bytes@[k - at]
                } else {
                    s0[k]
                },
                self.input == old(self).input,
                self.global_scratch_pos == old(self).global_scratch_pos,
                self.string_start == old(self).string_start,
                self.last_copied_pos == old(self).last_copied_pos,
                self.using_scratch,
                self.scratch_start == old(self).scratch_start,
                self.scratch_pos == at,
            decreases n - i,
        {
            self.scratch[at + i] = utf8_bytes[i];
            i = i + 1;
        }
        self.scratch_pos = new_scratch_pos;
        self.last_copied_pos = start_pos.saturating_add(6);
        proof {
            let span = old(self).pending_span(start_pos);
            let sp = old(self).scratch_pos as int;
            let so = old(self).scratch_bytes();
            assert(s0 =~= splice(so, sp, span));
            assert(self.scratch_bytes() =~= splice(so, sp, span + utf8_bytes@));
        }
        Ok(())
    }

    /// Completes string processing at `pos` (where the string ends in the
    /// input) and returns the string: borrowed from the input when it had no
    /// escapes, else the unescaped bytes in the scratch buffer. The scratch
    /// position is kept for the next string.
    pub fn end_string(&mut self, pos: usize) -> (r: Result<String<'_, '_>, ParseError>)
        ensures
            final(self).input == old(self).input,
            final(self).string_start == old(self).string_start,
            final(self).last_copied_pos == old(self).last_copied_pos,
            final(self).using_scratch == old(self).using_scratch,
            final(self).scratch_start == old(self).scratch_start,
            old(self).using_scratch ==> ({
                let span = old(self).pending_span(pos);
                let sp = old(self).scratch_pos;
                let start = old(self).scratch_start;
                match old(self).span_error(pos, 0) {
                    Some(e) => r == Err::<String, ParseError>(e) && final(self).scratch_pos == sp
                        && final(self).scratch_bytes() == old(self).scratch_bytes()
                        && final(self).global_scratch_pos == old(self).global_scratch_pos,
                    None => {
                        let bytes = splice(old(self).scratch_bytes(), sp as int, span);
                        &&& final(self).scratch_pos == sp + span.len()
                        &&& final(self).global_scratch_pos == sp + span.len()
                        &&& final(self).scratch_bytes() == bytes
                        &&& if start > sp + span.len() || sp + span.len() > bytes.len() {
                            r == Err::<String, ParseError>(ParseError::Unexpected(UnexpectedState::InvalidSliceBounds))
                        } else {
                            let text = bytes.subrange(start as int, sp + span.len());
                            &&& (r is Ok <==> valid_utf8(text))
                            &&& r matches Ok(s) ==> s matches String::Unescaped(t) && t.spec_bytes() == text
                            &&& r matches Err(e) ==> e is InvalidUtf8
                        }
                    },
                }
            }),
            !old(self).using_scratch ==> ({
                &&& final(self).scratch_pos == old(self).scratch_pos
                &&& final(self).scratch_bytes() == old(self).scratch_bytes()
                &&& final(self).global_scratch_pos == old(self).global_scratch_pos
                &&& if old(self).string_start <= pos <= old(self).input@.len() {
                    let text = old(self).input@.subrange(old(self).string_start as int, pos as int);
                    &&& (r is Ok <==> valid_utf8(text))
                    &&& r matches Ok(s) ==> s matches String::Borrowed(t) && t.spec_bytes() == text
                    &&& r matches Err(e) ==> e is InvalidUtf8
                } else {
                    r == Err::<String, ParseError>(ParseError::Unexpected(UnexpectedState::InvalidSliceBounds))
                }
            }),
    {
        if self.using_scratch {
            if let Err(e) = self.copy_span_to_scratch(pos, 0) {
                return Err(e);
            }
            self.global_scratch_pos = self.scratch_pos;
            if self.scratch_start > self.scratch_pos || self.scratch_pos > self.scratch.len() {
                return Err(ParseError::Unexpected(UnexpectedState::InvalidSliceBounds));
            }
            let all: &[u8] = &*self.scratch;
            let unescaped_slice = vstd::slice::slice_subrange(all, self.scratch_start, self.scratch_pos);
            match from_utf8(unescaped_slice) {
                Ok(unescaped_str) => Ok(String::Unescaped(unescaped_str)),
                Err(e) => Err(e),
            }
        } else {
            if self.string_start > pos || pos > self.input.len() {
                return Err(ParseError::Unexpected(UnexpectedState::InvalidSliceBounds));
            }
            let borrowed_bytes = vstd::slice::slice_subrange(self.input, self.string_start, pos);
            match from_utf8(borrowed_bytes) {
                Ok(borrowed_str) => Ok(String::Borrowed(borrowed_str)),
                Err(e) => Err(e),
            }
        }
    }
}

} // verus!

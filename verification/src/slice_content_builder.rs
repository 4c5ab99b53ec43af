//! Content handling for the slice parser: the input cursor, copy-on-escape
//! strings and `\uXXXX` escapes.

use vstd::prelude::*;
use vstd::string::StringSliceAdditionalSpecFns;
use vstd::utf8::valid_utf8;

use crate::copy_on_escape::{escape_handled, splice, string_begun, unicode_escape_copied, unicode_handled, CopyOnEscape};
use crate::escape_processor::{
    process_unicode_escape_sequence, spec_escape_char, spec_escape_token_result, EscapeProcessor,
    UnicodeEscapeCollector,
};
use crate::json_number::{spec_number_result, JsonNumber};
use crate::json_string::String;
use crate::parse_error::{ParseError, UnexpectedState};
use crate::shared::{sat_sub, ContentRange, Event, State};
use crate::pull_parser::copy_span;
use crate::slice_input_buffer::SliceInputBuffer;
use crate::tokenizer::{self, EventToken};

verus! {

/// Content handling for the slice parser, with copy-on-escape for strings.
pub struct SliceContentBuilder<'a, 'b> {
    /// The input buffer for slice-based parsing
    buffer: SliceInputBuffer<'a>,
    /// Copy-on-escape handler for zero-copy string optimization
    copy_on_escape: CopyOnEscape<'a, 'b>,
    /// Parser state tracking
    parser_state: State,
    /// Unicode escape collector for \uXXXX sequences
    unicode_escape_collector: UnicodeEscapeCollector,
}

impl<'a, 'b> SliceContentBuilder<'a, 'b> {
    /// The input.
    pub closed spec fn data(&self) -> Seq<u8> {
        self.buffer.data()
    }

    /// The position of the next input byte.
    pub closed spec fn pos(&self) -> usize {
        self.buffer.pos()
    }

    /// Where the current (or last) string starts in the input.
    pub closed spec fn string_start(&self) -> usize {
        self.copy_on_escape.string_start
    }

    /// The input position the current string's text has been copied up to.
    pub closed spec fn copied_to(&self) -> usize {
        self.copy_on_escape.last_copied_pos
    }

    /// Where the current string's unescaped text starts in the scratch
    /// buffer.
    pub closed spec fn scratch_from(&self) -> usize {
        self.copy_on_escape.scratch_start
    }

    /// Where the current string's unescaped text ends in the scratch buffer.
    pub closed spec fn scratch_to(&self) -> usize {
        self.copy_on_escape.scratch_pos
    }

    /// An empty range of the scratch buffer holds no text.
    pub proof fn lemma_no_scratch_text(&self)
        requires
            self.scratch_from() == self.scratch_to() <= self.scratch().len(),
        ensures
            self.scratch_text() == Seq::<u8>::empty(),
    {
        assert(self.scratch_text() =~= Seq::<u8>::empty());
    }

    /// The content being read.
    pub closed spec fn state(&self) -> State {
        self.parser_state
    }

    /// Whether the current (or last) string's text has gone to the scratch
    /// buffer (it had an escape).
    pub closed spec fn escaped(&self) -> bool {
        self.copy_on_escape.using_scratch
    }

    /// Whether a high surrogate waits for its low half.
    pub closed spec fn surrogate_pending(&self) -> bool {
        self.unicode_escape_collector.pending() is Some
    }

    /// The scratch buffer.
    pub closed spec fn scratch(&self) -> Seq<u8> {
        self.copy_on_escape.scratch_bytes()
    }

    /// The unescaped text of the current (or last) string.
    pub closed spec fn scratch_text(&self) -> Seq<u8> {
        self.copy_on_escape.scratch_bytes().subrange(
            self.copy_on_escape.scratch_start as int,
            self.copy_on_escape.scratch_pos as int,
        )
    }

    /// The parts agree on the input.
    pub closed spec fn wf(&self) -> bool {
        &&& self.buffer.wf()
        &&& self.copy_on_escape.input@ == self.buffer.data()
    }

    /// What a string returned now says of its text: borrowed, it is the
    /// input from the string's start to just before the closing quote;
    /// unescaped, it is the scratch buffer's text for it.
    pub open spec fn string_text_ok(&self, s: String) -> bool {
        match s {
            String::Borrowed(t) => t.spec_bytes() == self.data().subrange(
                self.string_start() as int,
                sat_sub(self.pos(), 1) as int,
            ),
            String::Unescaped(t) => t.spec_bytes() == self.scratch_text(),
        }
    }

    /// What a complete `\\uXXXX` escape just read does, from `o` to `f`,
    /// returning `r` (see [`unicode_escape_copied`]); the input cursor and
    /// content state stay.
    pub closed spec fn unicode_done(f: &Self, o: &Self, r: Result<(), ParseError>) -> bool {
        &&& f.buffer == o.buffer
        &&& f.parser_state == o.parser_state
        &&& unicode_escape_copied(
            f.copy_on_escape,
            o.copy_on_escape,
            f.unicode_escape_collector,
            o.unicode_escape_collector,
            o.buffer.pos(),
            r,
        )
    }

    /// What handling a tokenizer event that completes no parser event does,
    /// from `o` to `f`, returning `r`: a key or string begins at the input
    /// position (see [`string_begun`]), a number at the byte before it; a
    /// simple escape clears the collector and, inside a string or key, is
    /// copied (see [`escape_handled`]); a `\\uXXXX` escape begins with no
    /// digits, and at its end, inside a string or key, is done (see
    /// [`SliceContentBuilder::unicode_done`]); other events change nothing.
    pub closed spec fn other_event_done(f: &Self, o: &Self, event: tokenizer::Event, r: Result<(), ParseError>) -> bool {
        let in_string = o.parser_state is String || o.parser_state is Key;
        let pos = o.buffer.pos();
        let same_rest = f.copy_on_escape == o.copy_on_escape && f.unicode_escape_collector
            == o.unicode_escape_collector;
        &&& f.buffer == o.buffer
        &&& match event {
            tokenizer::Event::Begin(EventToken::Key) => r is Ok && f.parser_state == State::Key(pos) && string_begun(
                f.copy_on_escape,
                o.copy_on_escape,
                pos,
            ) && f.unicode_escape_collector == o.unicode_escape_collector,
            tokenizer::Event::Begin(EventToken::String) => r is Ok && f.parser_state == State::String(pos)
                && string_begun(f.copy_on_escape, o.copy_on_escape, pos) && f.unicode_escape_collector
                == o.unicode_escape_collector,
            tokenizer::Event::Begin(EventToken::Number)
            | tokenizer::Event::Begin(EventToken::NumberAndArray)
            | tokenizer::Event::Begin(EventToken::NumberAndObject) => r is Ok && same_rest && f.parser_state
                == State::Number(sat_sub(pos, 1)),
            tokenizer::Event::Begin(EventToken::UnicodeEscape) => {
                &&& r is Ok
                &&& f.parser_state == o.parser_state
                &&& f.copy_on_escape == o.copy_on_escape
                &&& if in_string {
                    f.unicode_escape_collector.digits() == Seq::<u8>::empty()
                        && f.unicode_escape_collector.pending() == o.unicode_escape_collector.pending()
                } else {
                    f.unicode_escape_collector == o.unicode_escape_collector
                }
            },
            tokenizer::Event::End(EventToken::UnicodeEscape) => if in_string {
                Self::unicode_done(f, o, r)
            } else {
                r is Ok && same_rest && f.parser_state == o.parser_state
            },
            tokenizer::Event::Begin(t) if spec_escape_char(t) is Some => {
                &&& f.parser_state == o.parser_state
                &&& f.unicode_escape_collector.digits() == Seq::<u8>::empty()
                &&& f.unicode_escape_collector.pending() is None
                &&& match spec_escape_token_result(t) {
                    Err(e) => r == Err::<(), ParseError>(e) && f.copy_on_escape == o.copy_on_escape,
                    Ok(c) => if in_string {
                        escape_handled(f.copy_on_escape, o.copy_on_escape, pos, c, r)
                    } else {
                        r is Ok && f.copy_on_escape == o.copy_on_escape
                    },
                }
            },
            _ => r is Ok && same_rest && f.parser_state == o.parser_state,
        }
    }

    /// What an error `e` from ending the current string (`key`: the current
    /// key) says of the content right after: the content was not in a
    /// string (or key) of that kind; a high surrogate still waits for its
    /// pair; or the string was ended and its text could not be had: copying
    /// the rest of it into the scratch buffer failed with `e` (with no room
    /// left, `ScratchBufferFull`), the unescaped text lies outside the
    /// scratch buffer, or it is not UTF-8; for a string without escapes, the
    /// input before the closing quote is out of range or not UTF-8.
    pub closed spec fn string_end_failed(&self, key: bool, e: ParseError) -> bool {
        let end = sat_sub(self.pos(), 1);
        let c = self.copy_on_escape;
        let kind_ok = if key {
            self.parser_state is Key
        } else {
            self.parser_state is String
        };
        ||| e == ParseError::Unexpected(UnexpectedState::StateMismatch) && !kind_ok
        ||| e == ParseError::InvalidUnicodeCodepoint && kind_ok && self.unicode_escape_collector.pending() is Some
        ||| self.parser_state is Empty && if c.using_scratch {
            ||| c.span_error(end, 0) == Some(e)
            ||| e == ParseError::Unexpected(UnexpectedState::InvalidSliceBounds) && (c.scratch_start
                > c.scratch_pos || c.scratch_pos > c.scratch_bytes().len())
            ||| e is InvalidUtf8 && !valid_utf8(self.scratch_text())
        } else {
            ||| e == ParseError::Unexpected(UnexpectedState::InvalidSliceBounds) && !(c.string_start <= end
                <= c.input@.len())
            ||| e is InvalidUtf8 && !valid_utf8(c.input@.subrange(c.string_start as int, end as int))
        }
    }

    /// What an error `e` from ending the current number says of the content
    /// right after: it was not in a number, or the number was ended and its
    /// text is out of range or not a number.
    pub closed spec fn number_end_failed(&self, e: ParseError) -> bool {
        ||| e == ParseError::Unexpected(UnexpectedState::StateMismatch) && !(self.parser_state is Number)
        ||| self.parser_state is Empty && (e == ParseError::Unexpected(UnexpectedState::InvalidSliceBounds)
            || e is InvalidNumber || e is InvalidUtf8)
    }

    /// What an error `e` from handling a tokenizer event says of the content
    /// right after (no other event fails): a key, string or number end fails
    /// as [`SliceContentBuilder::string_end_failed`] and
    /// [`SliceContentBuilder::number_end_failed`] say; a simple escape fails
    /// when its token is not one, or inside a string or key when copying
    /// into the scratch buffer fails (with no room for the unescaped byte,
    /// `ScratchBufferFull`); a `\\uXXXX` escape fails only inside a string or
    /// key, and never with a tokenizer error.
    pub closed spec fn failed_on(&self, last: tokenizer::Event, e: ParseError) -> bool {
        let in_string = self.parser_state is String || self.parser_state is Key;
        let c = self.copy_on_escape;
        match last {
            tokenizer::Event::End(EventToken::Key) => self.string_end_failed(true, e),
            tokenizer::Event::End(EventToken::String) => self.string_end_failed(false, e),
            tokenizer::Event::End(EventToken::Number)
            | tokenizer::Event::End(EventToken::NumberAndArray)
            | tokenizer::Event::End(EventToken::NumberAndObject) => self.number_end_failed(e),
            tokenizer::Event::End(EventToken::UnicodeEscape) => in_string && !(e is TokenizerError),
            tokenizer::Event::Begin(t) => spec_escape_char(t) is Some && (spec_escape_token_result(t) == Err::<
                u8,
                ParseError,
            >(e) || in_string && (c.span_error(sat_sub(self.pos(), 2), 1) == Some(e) || e
                == ParseError::ScratchBufferFull && c.scratch_pos >= c.scratch_bytes().len())),
            _ => false,
        }
    }

    /// What handling a tokenizer event that completes no parser event does
    /// to the string or key in progress, from `o` to `f`, returning `r`: its
    /// opening starts one at the input position, with no escape; a number's
    /// opening ends it; a simple escape inside it (when handled) sends its
    /// text to the scratch buffer; a `\\uXXXX` escape inside it (when
    /// handled) does too, unless it leaves a high surrogate waiting with the
    /// text still in the input; any other event leaves it as it was.
    pub open spec fn text_tracked(f: &Self, o: &Self, event: tokenizer::Event, r: Result<(), ParseError>) -> bool {
        let in_string = o.state() is String || o.state() is Key;
        let same = f.state() == o.state() && f.string_start() == o.string_start();
        match event {
            tokenizer::Event::Begin(EventToken::Key) => f.state() == State::Key(o.pos()) && f.string_start() == o.pos()
                && !f.escaped() && f.copied_to() == o.pos() && f.scratch_to() == f.scratch_from(),
            tokenizer::Event::Begin(EventToken::String) => f.state() == State::String(o.pos()) && f.string_start()
                == o.pos() && !f.escaped() && f.copied_to() == o.pos() && f.scratch_to() == f.scratch_from(),
            tokenizer::Event::Begin(EventToken::Number)
            | tokenizer::Event::Begin(EventToken::NumberAndArray)
            | tokenizer::Event::Begin(EventToken::NumberAndObject) => f.state() == State::Number(sat_sub(o.pos(), 1)),
            tokenizer::Event::Begin(t) if spec_escape_char(t) is Some => same && (in_string && r is Ok ==> {
                &&& f.escaped()
                &&& f.copied_to() == o.pos()
                &&& o.scratch_from() <= o.scratch_to() ==> {
                    &&& o.scratch_to() < o.scratch().len()
                    &&& f.scratch_from() == o.scratch_from()
                    &&& f.scratch_from() <= f.scratch_to() <= f.scratch().len()
                    &&& f.scratch_text() == o.scratch_text() + copy_span(
                        o.data(),
                        o.copied_to() as int,
                        sat_sub(o.pos(), 2) as int,
                    ).push(spec_escape_token_result(t)->Ok_0)
                }
            }),
            tokenizer::Event::End(EventToken::UnicodeEscape) => same && (in_string && r is Ok ==> (o.escaped()
                ==> f.escaped()) && (!f.escaped() ==> !o.escaped() && f.surrogate_pending())),
            _ => same && f.escaped() == o.escaped() && f.surrogate_pending() == o.surrogate_pending() && f.copied_to()
                == o.copied_to() && f.scratch_from() == o.scratch_from() && f.scratch_to() == o.scratch_to()
                && f.scratch_text() == o.scratch_text() && f.scratch().len() == o.scratch().len(),
        }
    }

    /// `f` is `o` with at most the content state changed.
    pub open spec fn kept(f: &Self, o: &Self) -> bool {
        &&& f.wf()
        &&& f.data() == o.data()
        &&& f.pos() == o.pos()
    }

    /// Create a new content builder over `input`, with `scratch_buffer` for
    /// unescaping.
    pub fn new(input: &'a [u8], scratch_buffer: &'b mut [u8]) -> (r: Self)
        requires
            input@.len() < usize::MAX,
        ensures
            r.wf(),
            r.data() == input@,
            r.pos() == 0,
            r.scratch() == old(scratch_buffer)@,
    {
        Self {
            buffer: SliceInputBuffer::new(input),
            copy_on_escape: CopyOnEscape::new(input, scratch_buffer),
            parser_state: State::Empty,
            unicode_escape_collector: UnicodeEscapeCollector::new(),
        }
    }

    /// Get access to the input buffer.
    pub fn buffer(&self) -> (r: &SliceInputBuffer<'a>)
        ensures
            r.data() == self.data(),
            r.pos() == self.pos(),
    {
        &self.buffer
    }

    /// Get mutable access to the input buffer.
    pub fn buffer_mut(&mut self) -> (r: &mut SliceInputBuffer<'a>)
        ensures
            r.data() == old(self).data(),
            r.pos() == old(self).pos(),
            final(self).data() == final(r).data(),
            final(self).pos() == final(r).pos(),
            final(self).string_start() == old(self).string_start(),
            final(self).scratch_text() == old(self).scratch_text(),
    {
        &mut self.buffer
    }

    /// Whether the input has been read past its end.
    pub fn is_past_end(&self) -> (r: bool)
        ensures
            r == (self.pos() > self.data().len()),
    {
        self.buffer.is_past_end()
    }

    /// The next input byte; `None` at the end of the input.
    pub fn next_byte(&mut self) -> (r: Result<Option<u8>, ParseError>)
        requires
            old(self).wf(),
        ensures
            final(self).wf(),
            final(self).data() == old(self).data(),
            final(self).string_start() == old(self).string_start(),
            final(self).scratch_text() == old(self).scratch_text(),
            final(self).state() == old(self).state(),
            final(self).escaped() == old(self).escaped(),
            final(self).surrogate_pending() == old(self).surrogate_pending(),
            final(self).copied_to() == old(self).copied_to(),
            final(self).scratch_from() == old(self).scratch_from(),
            final(self).scratch_to() == old(self).scratch_to(),
            final(self).scratch().len() == old(self).scratch().len(),
            old(self).pos() < old(self).data().len() ==> r == Ok::<Option<u8>, ParseError>(
                Some(old(self).data()[old(self).pos() as int]),
            ) && final(self).pos() == old(self).pos() + 1,
            old(self).pos() == old(self).data().len() ==> r == Ok::<Option<u8>, ParseError>(None) && final(self).pos()
                == old(self).pos() + 1,
            old(self).pos() > old(self).data().len() ==> r == Ok::<Option<u8>, ParseError>(None) && final(self).pos()
                == old(self).pos(),
    {
        match self.buffer.consume_byte() {
            Ok(byte) => Ok(Some(byte)),
            Err(_) => Ok(None),
        }
    }

    /// Ends the current string (`key`: the current key) and returns it; a
    /// high surrogate still waiting for its pair is an error.
    pub fn extract_content(&mut self, key: bool) -> (r: Result<Event<'_, '_>, ParseError>)
        requires
            old(self).wf(),
        ensures
            Self::kept(final(self), old(self)),
            r matches Ok(ev) ==> if key {
                ev matches Event::Key(s) && final(self).string_text_ok(s)
            } else {
                ev matches Event::String(s) && final(self).string_text_ok(s)
            },
            r is Ok ==> (if key {
                old(self).state() is Key
            } else {
                old(self).state() is String
            }) && !old(self).surrogate_pending() && final(self).string_start() == old(self).string_start(),
            r matches Ok(ev) ==> match ev {
                Event::Key(s) | Event::String(s) => (s is Unescaped) == old(self).escaped() && (s is Unescaped
                    && old(self).scratch_from() <= old(self).scratch_to() <= old(self).scratch().len()
                    ==> final(self).scratch_text() == old(self).scratch_text() + copy_span(
                    old(self).data(),
                    old(self).copied_to() as int,
                    sat_sub(old(self).pos(), 1) as int,
                )),
                _ => true,
            },
            r matches Err(e) ==> !(e is TokenizerError) && final(self).string_end_failed(key, e)
                && final(self).failed_on(
                if key {
                    tokenizer::Event::End(EventToken::Key)
                } else {
                    tokenizer::Event::End(EventToken::String)
                },
                e,
            ),
    {
        let in_place = match self.parser_state {
            State::Key(_) => key,
            State::String(_) => !key,
            _ => false,
        };
        if !in_place {
            return Err(ParseError::Unexpected(UnexpectedState::StateMismatch));
        }
        if self.unicode_escape_collector.has_pending_high_surrogate() {
            return Err(ParseError::InvalidUnicodeCodepoint);
        }
        self.parser_state = State::Empty;
        let end_pos = ContentRange::end_position_excluding_delimiter(self.buffer.current_pos());
        match self.copy_on_escape.end_string(end_pos) {
            Ok(s) => if key {
                Ok(Event::Key(s))
            } else {
                Ok(Event::String(s))
            },
            Err(e) => Err(e),
        }
    }

    /// Ends the current number (just before the delimiter read after it)
    /// and returns it: the input from where the number began up to there.
    pub fn extract_number(&mut self) -> (r: Result<Event<'_, '_>, ParseError>)
        requires
            old(self).wf(),
        ensures
            Self::kept(final(self), old(self)),
            ({
                let end = sat_sub(final(self).pos(), 1);
                r matches Ok(ev) ==> ev matches Event::Number(JsonNumber::Borrowed { raw, parsed })
                    && parsed == spec_number_result(raw.spec_bytes())
                    && raw.spec_bytes().len() <= end
                    && raw.spec_bytes() == final(self).data().subrange(end - raw.spec_bytes().len(), end as int)
            }),
            ({
                let end = sat_sub(final(self).pos(), 1);
                r matches Ok(Event::Number(JsonNumber::Borrowed { raw, .. })) ==> match old(self).state() {
                    State::Number(p) => raw.spec_bytes() == final(self).data().subrange(p as int, end as int),
                    _ => false,
                }
            }),
            r matches Err(e) ==> !(e is TokenizerError) && final(self).number_end_failed(e) && forall|
                t: EventToken,
            |
                (t == EventToken::Number || t == EventToken::NumberAndArray || t == EventToken::NumberAndObject)
                    ==> #[trigger] final(self).failed_on(tokenizer::Event::End(t), e),
    {
        let start = match self.parser_state {
            State::Number(p) => p,
            _ => return Err(ParseError::Unexpected(UnexpectedState::StateMismatch)),
        };
        self.parser_state = State::Empty;
        let end_pos = ContentRange::end_position_excluding_delimiter(self.buffer.current_pos());
        let number_bytes = match self.buffer.slice(start, end_pos) {
            Ok(b) => b,
            Err(_) => return Err(ParseError::Unexpected(UnexpectedState::InvalidSliceBounds)),
        };
        match JsonNumber::from_slice(number_bytes) {
            Ok(n) => Ok(Event::Number(n)),
            Err(e) => Err(e),
        }
    }

    /// Turns a complete `\uXXXX` escape, just read, into UTF-8 in the
    /// scratch buffer (for a surrogate pair, once its second half is read).
    fn process_unicode_escape_with_collector(&mut self) -> (r: Result<(), ParseError>)
        requires
            old(self).wf(),
        ensures
            Self::kept(final(self), old(self)),
            Self::unicode_done(final(self), old(self), r),
            r matches Err(e) ==> !(e is TokenizerError),
    {
        let current_pos = self.buffer.current_pos();
        let (hex_start, hex_end, _escape_start) = ContentRange::unicode_escape_bounds(current_pos);
        let hex = match self.buffer.slice(hex_start, hex_end) {
            Ok(h) => h,
            Err(_) => return Err(ParseError::Unexpected(UnexpectedState::InvalidSliceBounds)),
        };
        let had_pending_high_surrogate = self.unicode_escape_collector.has_pending_high_surrogate();
        let (utf8, escape_start_pos) = match process_unicode_escape_sequence(
            current_pos,
            &mut self.unicode_escape_collector,
            hex,
        ) {
            Ok(v) => v,
            Err(e) => return Err(e),
        };
        match utf8 {
            Some((bytes, len)) => {
                let utf8_slice = vstd::slice::slice_subrange(bytes.as_slice(), 0, len);
                if had_pending_high_surrogate {
                    let empty: [u8; 0] = [];
                    proof {
                        assert(empty@ =~= Seq::<u8>::empty());
                    }
                    let first = self.copy_on_escape.handle_unicode_escape(escape_start_pos, empty.as_slice());
                    let ghost mid = self.copy_on_escape;
                    if let Err(e) = first {
                        proof {
                            assert(unicode_handled(mid, old(self).copy_on_escape, escape_start_pos, Seq::<u8>::empty(), first));
                        }
                        return Err(e);
                    }
                    let second = self.copy_on_escape.handle_unicode_escape(escape_start_pos + 6, utf8_slice);
                    proof {
                        assert(unicode_handled(mid, old(self).copy_on_escape, escape_start_pos, Seq::<u8>::empty(), first));
                    }
                    if let Err(e) = second {
                        return Err(e);
                    }
                } else {
                    if let Err(e) = self.copy_on_escape.handle_unicode_escape(escape_start_pos, utf8_slice) {
                        return Err(e);
                    }
                }
                Ok(())
            },
            None => Ok(()),
        }
    }

    /// Handles a tokenizer event that does not complete a parser event:
    /// the start of a string, key or number, and escapes (simple escapes
    /// when they begin).
    pub fn process_other_event(&mut self, event: tokenizer::Event) -> (r: Result<(), ParseError>)
        requires
            old(self).wf(),
        ensures
            Self::kept(final(self), old(self)),
            Self::other_event_done(final(self), old(self), event, r),
            r matches Err(e) ==> !(e is TokenizerError) && final(self).failed_on(event, e),
            Self::text_tracked(final(self), old(self), event, r),
    {
        let in_string = match self.parser_state {
            State::String(_) | State::Key(_) => true,
            _ => false,
        };
        match event {
            tokenizer::Event::Begin(EventToken::Key) => {
                let pos = self.buffer.current_pos();
                self.parser_state = State::Key(pos);
                self.copy_on_escape.begin_string(pos);
                Ok(())
            },
            tokenizer::Event::Begin(EventToken::String) => {
                let pos = self.buffer.current_pos();
                self.parser_state = State::String(pos);
                self.copy_on_escape.begin_string(pos);
                Ok(())
            },
            tokenizer::Event::Begin(EventToken::Number)
            | tokenizer::Event::Begin(EventToken::NumberAndArray)
            | tokenizer::Event::Begin(EventToken::NumberAndObject) => {
                let number_start = ContentRange::number_start_from_current(self.buffer.current_pos());
                self.parser_state = State::Number(number_start);
                Ok(())
            },
            tokenizer::Event::Begin(EventToken::EscapeQuote)
            | tokenizer::Event::Begin(EventToken::EscapeBackslash)
            | tokenizer::Event::Begin(EventToken::EscapeSlash)
            | tokenizer::Event::Begin(EventToken::EscapeBackspace)
            | tokenizer::Event::Begin(EventToken::EscapeFormFeed)
            | tokenizer::Event::Begin(EventToken::EscapeNewline)
            | tokenizer::Event::Begin(EventToken::EscapeCarriageReturn)
            | tokenizer::Event::Begin(EventToken::EscapeTab) => {
                self.unicode_escape_collector.reset_all();
                let token = match event {
                    tokenizer::Event::Begin(t) => t,
                    _ => EventToken::EscapeQuote,
                };
                let unescaped_char = match EscapeProcessor::process_escape_token(&token) {
                    Ok(c) => c,
                    Err(e) => return Err(e),
                };
                if in_string {
                    let pos = self.buffer.current_pos();
                    let ghost oc = self.copy_on_escape;
                    if let Err(e) = self.copy_on_escape.handle_escape(pos, unescaped_char) {
                        return Err(e);
                    }
                    proof {
                        let span = oc.pending_span(sat_sub(pos, 2));
                        assert(span == copy_span(oc.input@, oc.last_copied_pos as int, sat_sub(pos, 2) as int));
                        if oc.scratch_start <= oc.scratch_pos {
                            let nb = splice(oc.scratch_bytes(), oc.scratch_pos as int, span.push(unescaped_char));
                            assert(self.copy_on_escape.scratch_bytes() == nb);
                            assert(nb.subrange(oc.scratch_start as int, self.copy_on_escape.scratch_pos as int)
                                =~= oc.scratch_bytes().subrange(oc.scratch_start as int, oc.scratch_pos as int)
                                + span.push(unescaped_char));
                        }
                    }
                }
                Ok(())
            },
            tokenizer::Event::Begin(EventToken::UnicodeEscape) => {
                if in_string {
                    self.unicode_escape_collector.reset();
                }
                Ok(())
            },
            tokenizer::Event::End(EventToken::UnicodeEscape) => {
                if in_string {
                    self.process_unicode_escape_with_collector()
                } else {
                    Ok(())
                }
            },
            _ => Ok(()),
        }
    }
}

} // verus!

//! Content handling for a parser that reads its input from a [`Reader`]
//! into one buffer: strings and numbers are borrowed from the buffer, or
//! unescaped at its start.

use vstd::prelude::*;
use vstd::string::StringSliceAdditionalSpecFns;

use crate::chunk_reader::Reader;
use crate::escape_processor::{
    process_unicode_escape_sequence, spec_feed_hex, spec_unicode_escape, UnicodeEscapeCollector,
};
use crate::json_number::{spec_number_result, JsonNumber};
use crate::json_string::String;
use crate::parse_error::{ParseError, UnexpectedState};
use vstd::utf8::valid_utf8;
use crate::shared::{content_bounds, get_content_piece, sat_sub, ContentRange, DataSource, Event, State};
use crate::event_processor::EventResult;
use crate::stream_buffer::StreamBuffer;
use crate::tokenizer::{self, EventToken};

verus! {

/// `a` and `b` hold the same kind of content (or none), wherever it
/// starts.
pub open spec fn same_kind(a: State, b: State) -> bool {
    match (a, b) {
        (State::Empty, State::Empty) => true,
        (State::Key(_), State::Key(_)) => true,
        (State::String(_), State::String(_)) => true,
        (State::Number(_), State::Number(_)) => true,
        _ => false,
    }
}

/// Content handling over a [`StreamBuffer`] filled from a reader.
pub struct StreamContentBuilder<'b, R: Reader> {
    stream_buffer: StreamBuffer<'b>,
    reader: R,
    parser_state: State,
    unicode_escape_collector: UnicodeEscapeCollector,
    unescaped_reset_queued: bool,
    finished: bool,
}

impl<'b, R: Reader> StreamContentBuilder<'b, R> {
    /// The buffer.
    pub closed spec fn data(&self) -> Seq<u8> {
        self.stream_buffer.data()
    }

    /// The position of the next byte to read in the buffer.
    pub closed spec fn pos(&self) -> usize {
        self.stream_buffer.tokenize_pos
    }

    /// Where the valid data in the buffer ends.
    pub closed spec fn data_end(&self) -> usize {
        self.stream_buffer.data_end
    }

    /// How many unescaped bytes the buffer's start holds.
    pub closed spec fn unescaped_len(&self) -> usize {
        self.stream_buffer.unescaped_len
    }

    /// The content (string, key or number) in progress.
    pub closed spec fn state(&self) -> State {
        self.parser_state
    }

    /// The reader.
    pub closed spec fn source(&self) -> R {
        self.reader
    }

    /// Whether the input has been found exhausted.
    pub closed spec fn finished(&self) -> bool {
        self.finished
    }

    /// Whether a reset of the unescaped content waits.
    pub closed spec fn reset_queued(&self) -> bool {
        self.unescaped_reset_queued
    }

    /// Whether a `\uXXXX` escape waits for the low half of a surrogate pair.
    pub closed spec fn pending_surrogate(&self) -> bool {
        self.unicode_escape_collector.pending() is Some
    }

    /// The unescaped content at the buffer's start.
    pub closed spec fn unescaped(&self) -> Seq<u8> {
        self.data().take(self.unescaped_len() as int)
    }

    /// What the `\\uXXXX` escape whose four digits end just before the read
    /// position adds to the unescaped content: its UTF-8 encoding (nothing
    /// while a high surrogate waits for its pair); `None` when the digits
    /// are not in the buffer or the escape is not valid.
    pub closed spec fn escape_utf8(&self) -> Option<Seq<u8>> {
        let pos = self.pos();
        if 4 <= pos && pos <= self.data_end() && pos <= self.data().len() {
            let fed = spec_feed_hex(
                self.unicode_escape_collector.digits(),
                self.data().subrange(pos - 4, pos as int),
            );
            if fed.1 is None {
                match spec_unicode_escape(fed.0, self.unicode_escape_collector.pending()) {
                    Ok((Some(b), _)) => Some(b),
                    Ok((None, _)) => Some(Seq::empty()),
                    Err(_) => None,
                }
            } else {
                None
            }
        } else {
            None
        }
    }

    /// What beginning an escape does, from `self` to `f`, returning `r`:
    /// inside a string or key with no unescaped content yet, the content so
    /// far (up to just before the backslash, or none after a high surrogate
    /// waiting for its pair) becomes the unescaped content; otherwise
    /// nothing changes.
    pub open spec fn escape_start_ok(&self, f: Self, r: Result<(), ParseError>) -> bool {
        let start = match self.state() {
            State::String(p) | State::Key(p) => Some(p),
            _ => None,
        };
        match start {
            Some(p) if self.unescaped_len() == 0 => {
                let end = if self.pending_surrogate() {
                    p
                } else {
                    sat_sub(self.pos(), 1)
                };
                r is Ok ==> f.unescaped() == if p < end && p < self.data_end() {
                    self.data().subrange(p as int, end as int)
                } else {
                    Seq::<u8>::empty()
                }
            },
            _ => r is Ok && f == *self,
        }
    }

    /// The read position is within the valid data, which is within the
    /// buffer; content in progress started before the read position; once
    /// finished, the reader has nothing more.
    pub closed spec fn wf(&self) -> bool {
        &&& self.stream_buffer.tokenize_pos <= self.stream_buffer.data_end <= self.stream_buffer.data().len()
        &&& self.stream_buffer.data().len() == (*self.stream_buffer.buffer).len()
        &&& self.stream_buffer.unescaped_len <= self.stream_buffer.data().len()
        &&& self.finished ==> self.reader.remaining() == 0
        &&& match self.parser_state {
            State::Key(p) | State::String(p) | State::Number(p) => p <= self.stream_buffer.tokenize_pos,
            State::Empty => true,
        }
    }

    /// The bytes of the content that started at `start`, ending just before
    /// the read position: the unescaped start of the buffer when there is
    /// unescaped content, else the buffer's data; `None` when they cannot be
    /// had.
    pub open spec fn content_bytes(&self, start: usize) -> Option<Seq<u8>> {
        if self.unescaped_len() > 0 {
            if self.unescaped_len() <= self.data().len() {
                Some(self.data().take(self.unescaped_len() as int))
            } else {
                None
            }
        } else {
            let b = content_bounds(start, self.pos());
            if b.0 <= b.1 <= self.data_end() && b.1 <= self.data().len() {
                Some(self.data().subrange(b.0 as int, b.1 as int))
            } else {
                None
            }
        }
    }

    /// What extracting the string that started at `start` gives, `event`
    /// making the event from its text: the event, holding the content's
    /// bytes (unescaped when there is unescaped content); an error when the
    /// content cannot be had or is not UTF-8.
    pub open spec fn string_result_ok(
        &self,
        start: usize,
        r: Result<Event, ParseError>,
        key: bool,
    ) -> bool {
        match self.content_bytes(start) {
            None => r matches Err(e) && e is Unexpected,
            Some(b) => if valid_utf8(b) {
                r matches Ok(ev) && match ev {
                    Event::Key(s) => key && s.text_bytes() == b && (s is Unescaped <==> self.unescaped_len() > 0),
                    Event::String(s) => !key && s.text_bytes() == b && (s is Unescaped <==> self.unescaped_len() > 0),
                    _ => false,
                }
            } else {
                r matches Err(e) && e is InvalidUtf8
            },
        }
    }

    /// `f` is `o` with at most the buffer and its positions, the reader and
    /// the collector changed, still well formed.
    pub open spec fn kept(f: &Self, o: &Self) -> bool {
        &&& f.wf()
        &&& f.state() == o.state()
        &&& f.finished() == o.finished()
        &&& f.reset_queued() == o.reset_queued()
    }

    /// Create a new content builder over `buffer`, reading from `reader`.
    pub fn new(buffer: &'b mut [u8], reader: R) -> (r: Self)
        ensures
            r.wf(),
            r.data() == old(buffer)@,
            r.pos() == 0,
            r.data_end() == 0,
            r.unescaped_len() == 0,
            r.state() == State::Empty,
            r.source() == reader,
            !r.finished(),
            !r.reset_queued(),
    {
        Self {
            stream_buffer: StreamBuffer::new(buffer),
            reader,
            parser_state: State::Empty,
            unicode_escape_collector: UnicodeEscapeCollector::new(),
            unescaped_reset_queued: false,
            finished: false,
        }
    }

    /// The content in progress is the same in `f` as in `o`, followed by
    /// `extra`: of the same kind, with the bytes from its start up to the
    /// read position those of `o` and then `extra` (compaction may have
    /// moved them to the buffer's start).
    pub open spec fn content_carried(f: &Self, o: &Self, extra: Seq<u8>) -> bool {
        match (o.state(), f.state()) {
            (State::Key(p), State::Key(p2))
            | (State::String(p), State::String(p2))
            | (State::Number(p), State::Number(p2)) => {
                &&& p2 <= f.pos() <= f.data().len()
                &&& f.pos() - p2 == o.pos() - p + extra.len()
                &&& f.data().subrange(p2 as int, f.pos() as int) == o.data().subrange(p as int, o.pos() as int)
                    + extra
            },
            (State::Empty, State::Empty) => true,
            _ => false,
        }
    }

    /// Carrying the content over successive steps: when `b` carries `a`'s
    /// content followed by `x`, and `c` carries `b`'s followed by `y`, then
    /// `c` carries `a`'s followed by `x` and then `y`. So over any run of
    /// [`StreamContentBuilder::next_byte`] calls, refills and compactions
    /// included, the content in progress is its bytes before the run
    /// followed by every byte read, in order.
    pub proof fn law_content_carried_chain(a: &Self, b: &Self, c: &Self, x: Seq<u8>, y: Seq<u8>)
        requires
            Self::content_carried(b, a, x),
            Self::content_carried(c, b, y),
        ensures
            Self::content_carried(c, a, x + y),
    {
        match (a.state(), c.state()) {
            (State::Key(p), State::Key(p3))
            | (State::String(p), State::String(p3))
            | (State::Number(p), State::Number(p3)) => {
                assert(a.data().subrange(p as int, a.pos() as int) + x + y =~= a.data().subrange(p as int, a.pos() as int)
                    + (x + y));
            },
            _ => {},
        }
    }

    /// Reads what the reader gives into the free space after the buffered
    /// data; when there is none, first compacts the buffer from the start of
    /// the content in progress (or the read position), failing when that
    /// frees nothing. The content in progress keeps its bytes.
    fn fill_buffer_from_reader(&mut self) -> (r: Result<(), ParseError>)
        requires
            old(self).wf(),
            old(self).pos() >= old(self).data_end(),
        ensures
            final(self).wf(),
            same_kind(final(self).state(), old(self).state()),
            r is Ok ==> Self::content_carried(final(self), old(self), Seq::empty()),
            final(self).finished() == old(self).finished(),
            final(self).reset_queued() == old(self).reset_queued(),
            final(self).unescaped_len() == old(self).unescaped_len(),
            r is Ok && final(self).pos() >= final(self).data_end() ==> final(self).source().remaining() == 0,
            r matches Err(e) ==> !(e is TokenizerError),
    {
        let ghost o0 = *self;
        let full = match self.stream_buffer.get_fill_slice() {
            None => true,
            Some(_) => false,
        };
        proof {
            assert(self.data().subrange(0, self.data_end() as int) =~= o0.data().subrange(0, o0.data_end() as int));
        }
        if full {
            let compact_start_pos = match self.parser_state {
                State::Number(start_pos) => start_pos,
                State::Key(start_pos) => start_pos,
                State::String(start_pos) => start_pos,
                _ => self.stream_buffer.current_position(),
            };
            let compaction_offset = match self.stream_buffer.compact_from(compact_start_pos) {
                Ok(o) => o,
                Err(e) => return Err(ParseError::from(e)),
            };
            if compaction_offset == 0 {
                return Err(ParseError::ScratchBufferFull);
            }
            if let Err(e) = self.update_positions_after_compaction(compaction_offset) {
                return Err(e);
            }
            proof {
                match o0.state() {
                    State::Key(p) | State::String(p) | State::Number(p) => {
                        assert(o0.data().subrange(p as int, o0.pos() as int) =~= o0.data().subrange(0, o0.data_end() as int).subrange(p as int, o0.pos() as int));
                        assert(self.data().subrange(0, self.pos() as int) =~= o0.data().subrange(p as int, o0.pos() as int));
                    },
                    State::Empty => {},
                }
            }
        } else {
            proof {
                match o0.state() {
                    State::Key(p) | State::String(p) | State::Number(p) => {
                        assert(self.data().subrange(p as int, self.pos() as int) =~= o0.data().subrange(0, o0.data_end() as int).subrange(p as int, o0.pos() as int));
                        assert(o0.data().subrange(p as int, o0.pos() as int) =~= o0.data().subrange(0, o0.data_end() as int).subrange(p as int, o0.pos() as int));
                    },
                    State::Empty => {},
                }
            }
        }
        let ghost mid = *self;
        proof {
            assert(Self::content_carried(&mid, &o0, Seq::empty())) by {
                match (o0.state(), mid.state()) {
                    (State::Key(p), State::Key(p2))
                    | (State::String(p), State::String(p2))
                    | (State::Number(p), State::Number(p2)) => {
                        assert(o0.data().subrange(p as int, o0.pos() as int) + Seq::<u8>::empty() =~= o0.data().subrange(p as int, o0.pos() as int));
                    },
                    _ => {},
                }
            }
        }
        let filled = match self.stream_buffer.get_fill_slice() {
            Some(fill_slice) => Some(self.reader.read(fill_slice)),
            None => None,
        };
        match filled {
            Some(Ok(bytes_read)) => match self.stream_buffer.mark_filled(bytes_read) {
                Ok(()) => {},
                Err(e) => return Err(ParseError::from(e)),
            },
            Some(Err(_)) => return Err(ParseError::ReaderError),
            None => {},
        }
        proof {
            match mid.state() {
                State::Key(p2) | State::String(p2) | State::Number(p2) => {
                    assert(self.data().subrange(p2 as int, self.pos() as int) =~= mid.data().subrange(p2 as int, mid.pos() as int));
                },
                State::Empty => {},
            }
        }
        Ok(())
    }

    /// Moves the recorded start of the content in progress back by
    /// `compaction_offset` after the buffer was compacted by that much; a
    /// start that the compaction discarded is an error.
    fn update_positions_after_compaction(&mut self, compaction_offset: usize) -> (r: Result<(), ParseError>)
        ensures
            final(self).stream_buffer == old(self).stream_buffer,
            final(self).reader == old(self).reader,
            final(self).unicode_escape_collector == old(self).unicode_escape_collector,
            final(self).unescaped_reset_queued == old(self).unescaped_reset_queued,
            final(self).finished == old(self).finished,
            match old(self).parser_state {
                State::Key(p) | State::String(p) | State::Number(p) => if p >= compaction_offset {
                    r is Ok && final(self).parser_state == match old(self).parser_state {
                        State::Key(_) => State::Key((p - compaction_offset) as usize),
                        State::String(_) => State::String((p - compaction_offset) as usize),
                        _ => State::Number((p - compaction_offset) as usize),
                    }
                } else {
                    r == Err::<(), ParseError>(ParseError::Unexpected(UnexpectedState::InvalidSliceBounds))
                        && final(self).parser_state == old(self).parser_state
                },
                State::Empty => r is Ok && final(self).parser_state == State::Empty,
            },
    {
        match self.parser_state {
            State::Empty => Ok(()),
            State::Key(pos) => if pos >= compaction_offset {
                self.parser_state = State::Key(pos - compaction_offset);
                Ok(())
            } else {
                Err(ParseError::Unexpected(UnexpectedState::InvalidSliceBounds))
            },
            State::String(pos) => if pos >= compaction_offset {
                self.parser_state = State::String(pos - compaction_offset);
                Ok(())
            } else {
                Err(ParseError::Unexpected(UnexpectedState::InvalidSliceBounds))
            },
            State::Number(pos) => if pos >= compaction_offset {
                self.parser_state = State::Number(pos - compaction_offset);
                Ok(())
            } else {
                Err(ParseError::Unexpected(UnexpectedState::InvalidSliceBounds))
            },
        }
    }

    /// Whether the input has been found exhausted.
    pub fn is_finished(&self) -> (r: bool)
        ensures
            r == self.finished(),
    {
        self.finished
    }

    /// Clears the unescaped content if a reset was queued.
    pub fn apply_unescaped_reset_if_queued(&mut self)
        requires
            old(self).wf(),
        ensures
            final(self).wf(),
            final(self).data() == old(self).data(),
            final(self).pos() == old(self).pos(),
            final(self).data_end() == old(self).data_end(),
            final(self).state() == old(self).state(),
            final(self).finished() == old(self).finished(),
            !final(self).reset_queued(),
            final(self).unescaped_len() == if old(self).reset_queued() {
                0
            } else {
                old(self).unescaped_len()
            },
    {
        if self.unescaped_reset_queued {
            self.stream_buffer.clear_unescaped();
            self.unescaped_reset_queued = false;
        }
    }

    /// Queue a reset of the unescaped content.
    fn queue_unescaped_reset(&mut self)
        ensures
            *final(self) == (StreamContentBuilder { unescaped_reset_queued: true, ..*old(self) }),
    {
        self.unescaped_reset_queued = true;
    }

    /// At the start of an escape in a string or key: begins unescaping, by
    /// copying the text so far to the buffer's start, unless it has begun.
    fn start_escape_processing(&mut self) -> (r: Result<(), ParseError>)
        requires
            old(self).wf(),
        ensures
            Self::kept(final(self), old(self)),
            final(self).pos() == old(self).pos(),
            final(self).data_end() == old(self).data_end(),
            old(self).escape_start_ok(*final(self), r),
            r matches Err(e) ==> !(e is TokenizerError),
    {
        if !self.stream_buffer.has_unescaped_content() {
            let start = match self.parser_state {
                State::String(p) => Some(p),
                State::Key(p) => Some(p),
                _ => None,
            };
            if let Some(start_pos) = start {
                let current_pos = self.stream_buffer.current_position();
                let content_start = start_pos;
                let content_end = if self.unicode_escape_collector.has_pending_high_surrogate() {
                    content_start
                } else {
                    ContentRange::end_position_excluding_delimiter(current_pos)
                };
                let content_len = content_end.wrapping_sub(content_start);
                let max_escaped_len = match self.stream_buffer.remaining_bytes().checked_add(content_len) {
                    Some(v) => v,
                    None => return Err(ParseError::NumericOverflow),
                };
                let ghost before = self.data();
                match self.stream_buffer.start_unescaping_with_copy(max_escaped_len, content_start, content_end) {
                    Ok(()) => {},
                    Err(e) => return Err(ParseError::from(e)),
                }
                proof {
                    if content_start < content_end && content_start < self.data_end() {
                        assert(self.unescaped() =~= before.subrange(content_start as int, content_end as int));
                    } else {
                        assert(self.unescaped() =~= Seq::<u8>::empty());
                    }
                }
            }
        }
        Ok(())
    }

    /// The next input byte, reading more input when the buffer is used up;
    /// `None`, and finished, at the end of the input. The content in
    /// progress keeps its bytes, followed by the byte read.
    pub fn next_byte(&mut self) -> (r: Result<Option<u8>, ParseError>)
        requires
            old(self).wf(),
        ensures
            final(self).wf(),
            same_kind(final(self).state(), old(self).state()),
            final(self).reset_queued() == old(self).reset_queued(),
            final(self).unescaped_len() == old(self).unescaped_len(),
            old(self).pos() < old(self).data_end() ==> r == Ok::<Option<u8>, ParseError>(
                Some(old(self).data()[old(self).pos() as int]),
            ) && final(self).state() == old(self).state() && final(self).pos() == old(self).pos() + 1 && final(self).data() == old(self).data()
                && final(self).data_end() == old(self).data_end() && final(self).finished() == old(self).finished(),
            r matches Ok(Some(b)) ==> 0 < final(self).pos() <= final(self).data_end() && b == final(self).data()[final(self).pos() - 1],
            r == Ok::<Option<u8>, ParseError>(None) ==> final(self).finished() && final(self).source().remaining() == 0
                && final(self).pos() >= final(self).data_end(),
            !(r == Ok::<Option<u8>, ParseError>(None)) ==> final(self).finished() == old(self).finished(),
            r matches Err(e) ==> !(e is TokenizerError),
            r matches Ok(Some(b)) ==> Self::content_carried(final(self), old(self), seq![b]),
            r == Ok::<Option<u8>, ParseError>(None) ==> Self::content_carried(final(self), old(self), Seq::empty()),
    {
        let ghost o0 = *self;
        if self.stream_buffer.is_empty() {
            if let Err(e) = self.fill_buffer_from_reader() {
                return Err(e);
            }
        } else {
            proof {
                assert(Self::content_carried(&*self, &o0, Seq::empty())) by {
                    match o0.state() {
                        State::Key(p) | State::String(p) | State::Number(p) => {
                            assert(o0.data().subrange(p as int, o0.pos() as int) + Seq::<u8>::empty() =~= o0.data().subrange(p as int, o0.pos() as int));
                        },
                        State::Empty => {},
                    }
                }
            }
        }
        let ghost mid = *self;
        if self.stream_buffer.is_empty() {
            if !self.finished {
                self.finished = true;
            }
            return Ok(None);
        }
        let byte = match self.stream_buffer.current_byte() {
            Ok(b) => b,
            Err(e) => return Err(ParseError::from(e)),
        };
        match self.stream_buffer.advance() {
            Ok(()) => {},
            Err(e) => return Err(ParseError::from(e)),
        }
        proof {
            match (o0.state(), mid.state()) {
                (State::Key(p), State::Key(p2))
                | (State::String(p), State::String(p2))
                | (State::Number(p), State::Number(p2)) => {
                    assert(self.data().subrange(p2 as int, self.pos() as int) =~= mid.data().subrange(p2 as int, mid.pos() as int).push(byte));
                    assert(mid.data().subrange(p2 as int, mid.pos() as int) == o0.data().subrange(p as int, o0.pos() as int) + Seq::<u8>::empty());
                    assert(o0.data().subrange(p as int, o0.pos() as int) + Seq::<u8>::empty() =~= o0.data().subrange(p as int, o0.pos() as int));
                    assert(self.data().subrange(p2 as int, self.pos() as int) =~= o0.data().subrange(p as int, o0.pos() as int) + seq![byte]);
                },
                _ => {},
            }
        }
        Ok(Some(byte))
    }

    /// The content in progress.
    pub fn parser_state(&self) -> (r: &State)
        ensures
            *r == self.state(),
    {
        &self.parser_state
    }

    /// Handles the tokenizer events that begin content: a key or string
    /// begins at the read position (just after its opening quote), a number
    /// at the byte before it (its first digit); literals need nothing.
    /// `None` for other events, which change nothing.
    pub fn process_begin_events(&mut self, event: &tokenizer::Event) -> (r: Option<EventResult<'static, 'static>>)
        requires
            old(self).wf(),
        ensures
            final(self).wf(),
            final(self).data() == old(self).data(),
            final(self).pos() == old(self).pos(),
            final(self).data_end() == old(self).data_end(),
            final(self).unescaped_len() == old(self).unescaped_len(),
            final(self).finished() == old(self).finished(),
            final(self).reset_queued() == old(self).reset_queued(),
            match *event {
                tokenizer::Event::Begin(EventToken::Key) => r == Some(EventResult::<'static, 'static>::Continue)
                    && final(self).state() == State::Key(old(self).pos()),
                tokenizer::Event::Begin(EventToken::String) => r == Some(EventResult::<'static, 'static>::Continue)
                    && final(self).state() == State::String(old(self).pos()),
                tokenizer::Event::Begin(EventToken::Number)
                | tokenizer::Event::Begin(EventToken::NumberAndArray)
                | tokenizer::Event::Begin(EventToken::NumberAndObject) => r == Some(
                    EventResult::<'static, 'static>::Continue,
                ) && final(self).state() == State::Number(sat_sub(old(self).pos(), 1)),
                tokenizer::Event::Begin(EventToken::True)
                | tokenizer::Event::Begin(EventToken::False)
                | tokenizer::Event::Begin(EventToken::Null) => r == Some(EventResult::<'static, 'static>::Continue)
                    && final(self).state() == old(self).state(),
                _ => r is None && final(self).state() == old(self).state(),
            },
    {
        match event {
            tokenizer::Event::Begin(EventToken::Key) => {
                let pos = self.stream_buffer.current_position();
                self.parser_state = State::Key(pos);
                Some(EventResult::Continue)
            },
            tokenizer::Event::Begin(EventToken::String) => {
                let pos = self.stream_buffer.current_position();
                self.parser_state = State::String(pos);
                Some(EventResult::Continue)
            },
            tokenizer::Event::Begin(EventToken::Number)
            | tokenizer::Event::Begin(EventToken::NumberAndArray)
            | tokenizer::Event::Begin(EventToken::NumberAndObject) => {
                let pos = self.stream_buffer.current_position();
                self.parser_state = State::Number(ContentRange::number_start_from_current(pos));
                Some(EventResult::Continue)
            },
            tokenizer::Event::Begin(EventToken::True)
            | tokenizer::Event::Begin(EventToken::False)
            | tokenizer::Event::Begin(EventToken::Null) => Some(EventResult::Continue),
            _ => None,
        }
    }

    /// The position of the next byte to read in the buffer.
    pub fn current_position(&self) -> (r: usize)
        ensures
            r == self.pos(),
    {
        self.stream_buffer.current_position()
    }

    /// Ends the string (`key`: the key) that started at `start_pos`, just
    /// before the read position, and returns it; unescaped content is
    /// queued for reset.
    pub fn extract_content(&mut self, start_pos: usize, key: bool) -> (r: Result<Event<'_, '_>, ParseError>)
        requires
            old(self).wf(),
        ensures
            final(self).wf(),
            final(self).data() == old(self).data(),
            final(self).pos() == old(self).pos(),
            final(self).data_end() == old(self).data_end(),
            final(self).unescaped_len() == old(self).unescaped_len(),
            final(self).state() == old(self).state(),
            final(self).finished() == old(self).finished(),
            final(self).reset_queued() == (old(self).reset_queued() || old(self).unescaped_len() > 0),
            old(self).string_result_ok(start_pos, r, key),
    {
        if self.stream_buffer.has_unescaped_content() {
            self.queue_unescaped_reset();
        }
        let current_pos = self.stream_buffer.current_position();
        let piece = match get_content_piece(&*self, start_pos, current_pos) {
            Ok(p) => p,
            Err(e) => return Err(e),
        };
        match piece.into_string() {
            Ok(s) => if key {
                Ok(Event::Key(s))
            } else {
                Ok(Event::String(s))
            },
            Err(e) => Err(e),
        }
    }

    /// Ends the string in progress (`key`: the key) and returns it; a high
    /// surrogate still waiting for its pair is an error.
    pub fn validate_and_extract_content(&mut self, key: bool) -> (r: Result<Event<'_, '_>, ParseError>)
        requires
            old(self).wf(),
        ensures
            final(self).wf(),
            match old(self).state() {
                State::Key(p) if key => if old(self).pending_surrogate() {
                    r == Err::<Event, ParseError>(ParseError::InvalidUnicodeCodepoint)
                } else {
                    final(self).state() == State::Empty && old(self).string_result_ok(p, r, key)
                },
                State::String(p) if !key => if old(self).pending_surrogate() {
                    r == Err::<Event, ParseError>(ParseError::InvalidUnicodeCodepoint)
                } else {
                    final(self).state() == State::Empty && old(self).string_result_ok(p, r, key)
                },
                _ => r == Err::<Event, ParseError>(ParseError::Unexpected(UnexpectedState::StateMismatch)),
            },
    {
        let start_pos = match self.parser_state {
            State::Key(p) => if key {
                p
            } else {
                return Err(ParseError::Unexpected(UnexpectedState::StateMismatch));
            },
            State::String(p) => if !key {
                p
            } else {
                return Err(ParseError::Unexpected(UnexpectedState::StateMismatch));
            },
            _ => return Err(ParseError::Unexpected(UnexpectedState::StateMismatch)),
        };
        if self.unicode_escape_collector.has_pending_high_surrogate() {
            return Err(ParseError::InvalidUnicodeCodepoint);
        }
        self.parser_state = State::Empty;
        self.extract_content(start_pos, key)
    }

    /// Ends the number that started at `start_pos` and returns it: it ends
    /// at the read position when it closes a standalone document
    /// (`finished`, not ended by a container), else just before the
    /// delimiter read after it.
    pub fn extract_number(&mut self, start_pos: usize, from_container_end: bool, finished: bool) -> (r: Result<
        Event<'_, '_>,
        ParseError,
    >)
        ensures
            *final(self) == *old(self),
            ({
                let end = if !from_container_end && finished {
                    old(self).pos()
                } else {
                    sat_sub(old(self).pos(), 1)
                };
                if start_pos <= end <= old(self).data_end() && end <= old(self).data().len() {
                    let b = old(self).data().subrange(start_pos as int, end as int);
                    if valid_utf8(b) {
                        r matches Ok(Event::Number(JsonNumber::Borrowed { raw, parsed })) && raw.spec_bytes() == b
                            && parsed == spec_number_result(b)
                    } else {
                        r matches Err(e) && (e is InvalidUtf8 || e is InvalidNumber)
                    }
                } else {
                    r == Err::<Event, ParseError>(ParseError::Unexpected(UnexpectedState::InvalidSliceBounds))
                }
            }),
    {
        let current_pos = self.stream_buffer.current_position();
        let use_full_span = !from_container_end && finished;
        let end_pos = ContentRange::number_end_position(current_pos, use_full_span);
        let number_bytes = match self.stream_buffer.get_string_slice(start_pos, end_pos) {
            Ok(b) => b,
            Err(e) => return Err(ParseError::from(e)),
        };
        match JsonNumber::from_slice(number_bytes) {
            Ok(n) => Ok(Event::Number(n)),
            Err(e) => Err(e),
        }
    }

    /// Ends the number in progress and returns it (see
    /// [`StreamContentBuilder::extract_number`], with the builder's own
    /// finished flag).
    pub fn validate_and_extract_number(&mut self, from_container_end: bool) -> (r: Result<Event<'_, '_>, ParseError>)
        requires
            old(self).wf(),
        ensures
            final(self).wf(),
            match old(self).state() {
                State::Number(p) => {
                    let end = if !from_container_end && old(self).finished() {
                        old(self).pos()
                    } else {
                        sat_sub(old(self).pos(), 1)
                    };
                    &&& final(self).state() == State::Empty
                    &&& if p <= end <= old(self).data_end() && end <= old(self).data().len() {
                        let b = old(self).data().subrange(p as int, end as int);
                        if valid_utf8(b) {
                            r matches Ok(Event::Number(JsonNumber::Borrowed { raw, parsed })) && raw.spec_bytes()
                                == b && parsed == spec_number_result(b)
                        } else {
                            r matches Err(e) && (e is InvalidUtf8 || e is InvalidNumber)
                        }
                    } else {
                        r == Err::<Event, ParseError>(ParseError::Unexpected(UnexpectedState::InvalidSliceBounds))
                    }
                },
                _ => r == Err::<Event, ParseError>(ParseError::Unexpected(UnexpectedState::StateMismatch)),
            },
    {
        let start_pos = match self.parser_state {
            State::Number(p) => p,
            _ => return Err(ParseError::Unexpected(UnexpectedState::StateMismatch)),
        };
        self.parser_state = State::Empty;
        let finished = self.finished;
        self.extract_number(start_pos, from_container_end, finished)
    }

    /// Begins a `\uXXXX` escape: nothing to do here, the digits are read
    /// from the buffer at its end.
    pub fn begin_unicode_escape(&mut self) -> (r: Result<(), ParseError>)
        ensures
            *final(self) == *old(self),
            r is Ok,
    {
        Ok(())
    }

    /// At the end of a `\uXXXX` escape (the read position just after its
    /// digits): adds its UTF-8 encoding to the unescaped content (a high
    /// surrogate waits for its pair).
    pub fn process_unicode_escape_with_collector(&mut self) -> (r: Result<(), ParseError>)
        requires
            old(self).wf(),
        ensures
            Self::kept(final(self), old(self)),
            final(self).pos() == old(self).pos(),
            final(self).data_end() == old(self).data_end(),
            old(self).escape_utf8() is None ==> r is Err,
            r is Ok ==> (old(self).escape_utf8() matches Some(b) && final(self).unescaped() == old(self).unescaped()
                + b),
            old(self).escape_utf8() matches Some(b) && old(self).unescaped_len() + b.len() <= old(self).data().len()
                ==> r is Ok,
            r matches Err(e) ==> !(e is TokenizerError),
    {
        let current_pos = self.stream_buffer.current_position();
        let (hex_start, hex_end, _escape_start) = ContentRange::unicode_escape_bounds(current_pos);
        let hex = match self.stream_buffer.get_string_slice(hex_start, hex_end) {
            Ok(h) => h,
            Err(e) => return Err(ParseError::from(e)),
        };
        let (utf8, _escape_start_pos) = match process_unicode_escape_sequence(
            current_pos,
            &mut self.unicode_escape_collector,
            hex,
        ) {
            Ok(v) => v,
            Err(e) => return Err(e),
        };
        proof {
            assert(hex@.len() == 4);
            assert(hex@ == old(self).data().subrange(current_pos - 4, current_pos as int));
        }
        if let Some((bytes, len)) = utf8 {
            proof {
                assert(old(self).escape_utf8() == Some(bytes@.take(len as int)));
            }
            let mut i: usize = 0;
            while i < len
                invariant
                    Self::kept(self, old(self)),
                    self.pos() == old(self).pos(),
                    self.data_end() == old(self).data_end(),
                    self.data().len() == old(self).data().len(),
                    len <= 4,
                    i <= len,
                    old(self).escape_utf8() == Some(bytes@.take(len as int)),
                    self.unescaped_len() == old(self).unescaped_len() + i,
                    self.unescaped() == old(self).unescaped() + bytes@.take(len as int).take(i as int),
                    old(self).unescaped_len() + len <= old(self).data().len() ==> self.unescaped_len() + (len - i)
                        <= self.data().len(),
                decreases len - i,
            {
                let ghost prev_data = self.data();
                let ghost prev_len = self.unescaped_len();
                match self.stream_buffer.append_unescaped_byte(bytes[i]) {
                    Ok(()) => {},
                    Err(e) => return Err(ParseError::from(e)),
                }
                proof {
                    assert(bytes@.take(len as int).take(i + 1) =~= bytes@.take(len as int).take(i as int).push(bytes[i as int]));
                    assert(self.data().take(prev_len + 1) =~= prev_data.take(prev_len as int).push(bytes[i as int]));
                    assert(self.unescaped() =~= old(self).unescaped() + bytes@.take(len as int).take(i + 1));
                }
                i = i + 1;
            }
            proof {
                assert(bytes@.take(len as int).take(len as int) =~= bytes@.take(len as int));
            }
        } else {
            proof {
                assert(old(self).escape_utf8() == Some(Seq::<u8>::empty()));
                assert(old(self).unescaped() + Seq::<u8>::empty() =~= old(self).unescaped());
            }
        }
        Ok(())
    }

    /// A simple escape's character goes to the unescaped content.
    pub fn handle_simple_escape_char(&mut self, escape_char: u8) -> (r: Result<(), ParseError>)
        requires
            old(self).wf(),
        ensures
            Self::kept(final(self), old(self)),
            final(self).pos() == old(self).pos(),
            final(self).data_end() == old(self).data_end(),
            old(self).unescaped_len() < old(self).data().len() ==> r is Ok && final(self).data() == old(self).data().update(old(self).unescaped_len() as int, escape_char) && final(self).unescaped_len()
                == old(self).unescaped_len() + 1,
            r matches Err(e) ==> !(e is TokenizerError),
    {
        match self.stream_buffer.append_unescaped_byte(escape_char) {
            Ok(()) => Ok(()),
            Err(e) => Err(ParseError::from(e)),
        }
    }

    /// At the start of an escape: begins unescaping (see
    /// [`StreamContentBuilder::start_escape_processing`]).
    pub fn begin_escape_sequence(&mut self) -> (r: Result<(), ParseError>)
        requires
            old(self).wf(),
        ensures
            Self::kept(final(self), old(self)),
            final(self).pos() == old(self).pos(),
            final(self).data_end() == old(self).data_end(),
            old(self).escape_start_ok(*final(self), r),
            r matches Err(e) ==> !(e is TokenizerError),
    {
        self.start_escape_processing()
    }

    /// Inside a string or key whose text is being unescaped, adds a byte
    /// that produced no event (an ordinary character) to the unescaped text.
    pub fn handle_byte_accumulation(&mut self, byte: u8) -> (r: Result<(), ParseError>)
        requires
            old(self).wf(),
        ensures
            Self::kept(final(self), old(self)),
            final(self).pos() == old(self).pos(),
            final(self).data_end() == old(self).data_end(),
            !((old(self).state() is String || old(self).state() is Key) && old(self).unescaped_len() > 0) ==> *final(self) == *old(self) && r is Ok,
            (old(self).state() is String || old(self).state() is Key) && 0 < old(self).unescaped_len() < old(self).data().len() ==> r is Ok && final(self).data() == old(self).data().update(
                old(self).unescaped_len() as int,
                byte,
            ) && final(self).unescaped_len() == old(self).unescaped_len() + 1,
            r matches Err(e) ==> !(e is TokenizerError),
    {
        let in_string_mode = match self.parser_state {
            State::String(_) | State::Key(_) => true,
            _ => false,
        };
        if in_string_mode {
            if self.stream_buffer.has_unescaped_content() {
                match self.stream_buffer.append_unescaped_byte(byte) {
                    Ok(()) => {},
                    Err(e) => return Err(ParseError::from(e)),
                }
            }
        }
        Ok(())
    }
}

impl<'b, R: Reader> DataSource<'b, 'b> for StreamContentBuilder<'b, R> {
    closed spec fn borrowed(&self, start: usize, end: usize) -> Result<Seq<u8>, ParseError> {
        if start <= end <= self.data_end() && end <= self.data().len() {
            Ok(self.data().subrange(start as int, end as int))
        } else {
            Err(ParseError::Unexpected(UnexpectedState::InvalidSliceBounds))
        }
    }

    closed spec fn unescaped_content(&self) -> Result<Seq<u8>, ParseError> {
        if self.unescaped_len() == 0 {
            Err(ParseError::Unexpected(UnexpectedState::InvalidSliceBounds))
        } else if self.unescaped_len() > self.data().len() {
            Err(ParseError::Unexpected(UnexpectedState::BufferCapacityExceeded))
        } else {
            Ok(self.data().take(self.unescaped_len() as int))
        }
    }

    closed spec fn holds_unescaped(&self) -> bool {
        self.unescaped_len() > 0
    }

    fn get_borrowed_slice(&'b self, start: usize, end: usize) -> (r: Result<&'b [u8], ParseError>) {
        match self.stream_buffer.get_string_slice(start, end) {
            Ok(s) => Ok(s),
            Err(e) => Err(ParseError::from(e)),
        }
    }

    fn get_unescaped_slice(&'b self) -> (r: Result<&'b [u8], ParseError>) {
        match self.stream_buffer.get_unescaped_slice() {
            Ok(s) => Ok(s),
            Err(e) => Err(ParseError::from(e)),
        }
    }

    fn has_unescaped_content(&self) -> (r: bool) {
        self.stream_buffer.has_unescaped_content()
    }
}

} // verus!

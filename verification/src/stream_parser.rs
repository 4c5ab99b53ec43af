//! The pull parser over a [`Reader`]: input is read into one buffer, which
//! also holds the unescaped text of strings with escapes, and is compacted
//! when it fills up.

use vstd::prelude::*;
use vstd::string::StringSliceAdditionalSpecFns;

use crate::bitstack::{BitBucket, BitStackConfig, DefaultConfig, DepthCounter};
use crate::chunk_reader::Reader;
use crate::escape_processor::{
    process_unicode_escape_sequence, spec_escape_char, spec_escape_token_result, unicode_escape_effect, EscapeProcessor,
    UnicodeEscapeCollector,
};
use crate::event_processor::{
    create_tokenizer_callback, have_events, pending_events, process_simple_events, spec_simple_event,
    take_first_event, EventResult,
};
use crate::json_number::{spec_number_result, JsonNumber};
use crate::json_string::String;
use crate::parse_error::{ParseError, UnexpectedState};
use crate::pull_parser::{completes, last_open, lemma_last_open_prefix, none_complete, opens_text, unhandled_at};
use crate::shared::{content_bounds, from_utf8, sat_sub, ContentRange, Event, ParserState, State};
use crate::stream_buffer::{spec_stream_error, StreamBuffer, StreamBufferError};
use crate::tokenizer::{self, initial_view, spec_finish, spec_run, spec_step, wrap_add, EventToken, TokView, Tokenizer};
use crate::tokenizer_laws::{canon, event_kinds, lemma_feed_byte, strip_err};

verus! {

/// The end of a simple escape (the stream parser adds its character then).
pub open spec fn simple_escape_end(e: tokenizer::Event) -> bool {
    e matches tokenizer::Event::End(t) && spec_escape_char(t) is Some
}

/// Whether a simple escape ends between the events at `lo` and `hi`.
pub open spec fn escape_end_between(evs: Seq<(tokenizer::Event, usize)>, lo: int, hi: int) -> bool {
    exists|j: int| lo < j < hi && simple_escape_end(#[trigger] evs[j].0)
}

/// What a key or string `s` returned on the tokenizer event at index `k` of
/// `evs` (the events of the bytes fed from `base` on, positions counted
/// from `base`) says, when a key or string opened earlier among them: a
/// borrowed one comes with no simple escape between the quotes, and its text
/// is the bytes fed between the opening quote and the closing one (none
/// if both were reported at one byte).
pub open spec fn text_from_fed(fed: Seq<u8>, base: int, evs: Seq<(tokenizer::Event, usize)>, k: int, s: String) -> bool {
    let b = last_open(evs, k);
    0 <= k < evs.len() && b >= 0 ==> match s {
        String::Borrowed(t) => {
            let lo = base + evs[b].1 + 1;
            let hi = base + evs[k].1;
            !escape_end_between(evs, b, k) && t.spec_bytes() == fed.subrange(lo, if hi < lo { lo } else { hi })
        },
        String::Unescaped(_) => true,
    }
}

/// Represents the processing state of the StreamParser: once Finished, no
/// other processing state is possible.
#[derive(Debug, Clone, Copy, PartialEq, Eq, Structural)]
pub enum ProcessingState {
    /// Normal active processing
    Active { unescaped_reset_queued: bool, in_escape_sequence: bool },
    /// All input consumed, tokenizer finished
    Finished,
}

/// A pull parser that parses JSON from a stream.
///
/// Generic over BitStackConfig for configurable nesting depth.
/// It reads its input with a [`Reader`].
pub struct StreamParser<'b, R: Reader, C: BitStackConfig = DefaultConfig> {
    tokenizer: Tokenizer<C::Bucket, C::Counter>,
    parser_state: ParserState,
    state: State,
    reader: R,
    stream_buffer: StreamBuffer<'b>,
    processing_state: ProcessingState,
    unicode_escape_collector: UnicodeEscapeCollector,
    fed: Ghost<Seq<u8>>,
}

impl<'b, R: Reader> StreamParser<'b, R, DefaultConfig> {
    /// Create a new StreamParser with the default configuration.
    pub fn new(reader: R, buffer: &'b mut [u8]) -> (r: Self)
        ensures
            r.wf(),
            r.fed().len() == 0,
            r.tok() == initial_view(u32::capacity()),
            r.pending().len() == 0,
            !r.finished(),
            r.data() == old(buffer)@,
    {
        Self::with_config(reader, buffer)
    }
}

impl<'b, R: Reader, C: BitStackConfig> StreamParser<'b, R, C> {
    /// The bytes handed to the tokenizer so far.
    pub closed spec fn fed(&self) -> Seq<u8> {
        self.fed@
    }

    /// The tokenizer.
    pub closed spec fn tok(&self) -> TokView {
        self.tokenizer.view()
    }

    /// Tokenizer events received and not yet handled.
    pub closed spec fn pending(&self) -> Seq<tokenizer::Event> {
        pending_events(self.parser_state.evts)
    }

    /// Whether the end of the input has been reached (and the tokenizer
    /// finished).
    pub closed spec fn finished(&self) -> bool {
        self.processing_state is Finished
    }

    /// The buffer.
    pub closed spec fn data(&self) -> Seq<u8> {
        self.stream_buffer.data()
    }

    /// The position of the next byte in the buffer.
    pub closed spec fn pos(&self) -> usize {
        self.stream_buffer.tokenize_pos
    }

    /// Where the valid data in the buffer ends.
    pub closed spec fn data_end(&self) -> usize {
        self.stream_buffer.data_end
    }

    /// Whether the reader's last read failed.
    pub closed spec fn reader_failed(&self) -> bool {
        self.reader.failed()
    }

    /// How many unescaped bytes the buffer's start holds.
    pub closed spec fn unescaped_len(&self) -> usize {
        self.stream_buffer.unescaped_len
    }

    /// A bound on the input still to come: what the reader holds and the
    /// buffered bytes not yet read, plus one while the end is not reached.
    pub closed spec fn to_come(&self) -> nat {
        (self.reader.remaining() + sat_sub(self.stream_buffer.data_end, self.stream_buffer.tokenize_pos) + if self.finished() {
            0int
        } else {
            1int
        }) as nat
    }

    /// The read position is within the valid data, which is within the
    /// buffer.
    pub closed spec fn wf(&self) -> bool {
        &&& self.stream_buffer.tokenize_pos <= self.stream_buffer.data_end <= self.stream_buffer.data().len()
        &&& self.stream_buffer.data().len() == (*self.stream_buffer.buffer).len()
        &&& self.finished() ==> self.reader.remaining() == 0 && self.stream_buffer.tokenize_pos
            >= self.stream_buffer.data_end
        &&& match self.state {
            State::Key(p) | State::String(p) | State::Number(p) => p <= self.stream_buffer.tokenize_pos,
            State::Empty => true,
        }
    }

    /// The largest nesting depth.
    pub open spec fn max_depth() -> nat {
        C::Counter::max_count()
    }

    /// What a string event returned now says of its text: borrowed, it ends
    /// just before the closing quote in the buffer; unescaped, it is the
    /// buffer's unescaped start.
    pub open spec fn string_text_ok(&self, s: String) -> bool {
        match s {
            String::Borrowed(t) => {
                let e = sat_sub(self.pos(), 1);
                &&& t.spec_bytes().len() <= e
                &&& t.spec_bytes() == self.data().subrange(e - t.spec_bytes().len(), e as int)
            },
            String::Unescaped(t) => t.spec_bytes() == self.data().take(self.unescaped_len() as int),
        }
    }

    /// What a returned event says of the tokenizer event that completed it
    /// (and of the parser right after).
    pub open spec fn event_for(&self, ev: Event, last: tokenizer::Event) -> bool {
        match ev {
            Event::Key(s) => last == tokenizer::Event::End(EventToken::Key) && self.string_text_ok(s),
            Event::String(s) => last == tokenizer::Event::End(EventToken::String) && self.string_text_ok(s),
            Event::Number(n) => match spec_simple_event(last) {
                Some(EventResult::ExtractNumber(from_container_end)) => {
                    let end = if !from_container_end && self.finished() {
                        self.pos()
                    } else {
                        sat_sub(self.pos(), 1)
                    };
                    &&& n matches JsonNumber::Borrowed { raw, parsed }
                    &&& parsed == spec_number_result(raw.spec_bytes())
                    &&& raw.spec_bytes().len() <= end
                    &&& raw.spec_bytes() == self.data().subrange(end - raw.spec_bytes().len(), end as int)
                },
                _ => false,
            },
            _ => spec_simple_event(last) == Some(EventResult::Complete(ev)),
        }
    }

    /// What the parser holds of the key or string in progress, after the
    /// first `m` of the events `evs` (those of the bytes fed from `base`
    /// on): if one opened among them and is still being read, an escape
    /// ended since has started its unescaped text; and while there is none,
    /// the buffer holds the bytes fed since its opening quote, up to the read
    /// position.
    closed spec fn text_inv(&self, base: int, evs: Seq<(tokenizer::Event, usize)>, m: int) -> bool {
        let b = last_open(evs, m);
        let sb = self.stream_buffer;
        m >= 0 && b >= 0 ==> match self.state {
            State::String(p) | State::Key(p) => {
                let start = base + evs[b].1 + 1;
                &&& escape_end_between(evs, b, m) ==> sb.unescaped_len > 0
                &&& sb.unescaped_len == 0 ==> {
                    &&& p <= sb.tokenize_pos <= sb.data().len()
                    &&& self.fed@.len() - (sb.tokenize_pos - p) == start
                    &&& sb.data().subrange(p as int, sb.tokenize_pos as int) == self.fed@.subrange(
                        start,
                        self.fed@.len() as int,
                    )
                }
            },
            _ => true,
        }
    }

    /// Reading the bytes `extra` (at most one, added to the unescaped text
    /// when there is some) keeps what holds of the text in progress.
    proof fn lemma_text_inv_feed(
        o: &Self,
        mid: &Self,
        f: &Self,
        base: int,
        evs: Seq<(tokenizer::Event, usize)>,
        more: Seq<(tokenizer::Event, usize)>,
        m: int,
        extra: Seq<u8>,
    )
        requires
            0 <= m <= evs.len(),
            base >= 0,
            o.text_inv(base, evs, m),
            Self::content_kept(mid, o, extra),
            mid.stream_buffer.unescaped_len == o.stream_buffer.unescaped_len,
            f.state == mid.state,
            f.fed@ == o.fed@ + extra,
            f.stream_buffer.tokenize_pos == mid.stream_buffer.tokenize_pos,
            f.stream_buffer.unescaped_len == 0 ==> mid.stream_buffer.unescaped_len == 0 && f.stream_buffer.data()
                == mid.stream_buffer.data(),
            mid.stream_buffer.unescaped_len > 0 ==> f.stream_buffer.unescaped_len > 0,
        ensures
            f.text_inv(base, evs + more, m),
    {
        reveal(StreamParser::content_kept);
        lemma_last_open_prefix(evs, more, m);
        let e2 = evs + more;
        let b = last_open(evs, m);
        if b >= 0 {
            assert(e2[b] == evs[b]);
            let start = base + evs[b].1 + 1;
            if escape_end_between(e2, b, m) {
                let j = choose|j: int| b < j < m && simple_escape_end(#[trigger] e2[j].0);
                assert(e2[j] == evs[j]);
                assert(escape_end_between(evs, b, m));
            }
            match (o.state, f.state) {
                (State::String(p), State::String(p2)) | (State::Key(p), State::Key(p2)) => {
                    if f.stream_buffer.unescaped_len == 0 {
                        assert(o.stream_buffer.unescaped_len == 0);
                        assert(p <= o.stream_buffer.tokenize_pos);
                        assert((o.fed@ + extra).subrange(start, (o.fed@.len() + extra.len()) as int) =~= o.fed@.subrange(
                            start,
                            o.fed@.len() as int,
                        ) + extra);
                    }
                },
                _ => {},
            }
        }
    }

    /// Where the key or string `ev` (if it is one) returned from `o` comes
    /// from: a borrowed one is the buffer's bytes from its start to just
    /// before the closing quote, with no unescaped text; an unescaped one
    /// comes with unescaped text.
    closed spec fn text_source(o: &Self, ev: Event) -> bool {
        let s = match ev {
            Event::Key(s) => Some(s),
            Event::String(s) => Some(s),
            _ => None,
        };
        match s {
            Some(String::Borrowed(t)) => match o.state {
                State::String(p) | State::Key(p) => {
                    let cb = content_bounds(p, o.stream_buffer.tokenize_pos);
                    &&& o.stream_buffer.unescaped_len == 0
                    &&& cb.0 <= cb.1 <= o.stream_buffer.data().len()
                    &&& t.spec_bytes() == o.stream_buffer.data().subrange(cb.0 as int, cb.1 as int)
                },
                _ => false,
            },
            Some(String::Unescaped(_)) => o.stream_buffer.unescaped_len > 0,
            None => true,
        }
    }

    /// A key or string ended by the event at index `m` and returned from
    /// where it was read has the text that [`text_from_fed`] gives.
    proof fn lemma_text_at_end(o: &Self, base: int, evs: Seq<(tokenizer::Event, usize)>, m: int, ev: Event)
        requires
            0 <= m < evs.len(),
            base >= 0,
            o.text_inv(base, evs, m),
            o.fed@.len() == base + evs[m].1 + 1,
            Self::text_source(o, ev),
        ensures
            match ev {
                Event::Key(s) | Event::String(s) => text_from_fed(o.fed@, base, evs, m, s),
                _ => true,
            },
    {
        let b = last_open(evs, m);
        lemma_last_open_prefix(evs, Seq::empty(), m);
        match ev {
            Event::Key(s) | Event::String(s) => {
                if b >= 0 {
                    match s {
                        String::Borrowed(t) => {
                            let lo = base + evs[b].1 + 1;
                            let hi = base + evs[m].1;
                            match o.state {
                                State::String(p) | State::Key(p) => {
                                    let tp = o.stream_buffer.tokenize_pos;
                                    assert(p <= tp);
                                    if p < tp {
                                        assert(hi >= lo);
                                        assert(o.stream_buffer.data().subrange(p as int, tp - 1) =~= o.stream_buffer.data().subrange(
                                            p as int,
                                            tp as int,
                                        ).take(tp - 1 - p));
                                        assert(o.fed@.subrange(lo, hi) =~= o.fed@.subrange(lo, o.fed@.len() as int).take(hi - lo));
                                    } else {
                                        assert(lo == hi + 1);
                                        assert(t.spec_bytes() =~= o.fed@.subrange(lo, lo));
                                    }
                                },
                                _ => {},
                            }
                        },
                        String::Unescaped(_) => {},
                    }
                }
            },
            _ => {},
        }
    }

    /// Handling the event at index `m` keeps what holds of the text in
    /// progress.
    proof fn lemma_text_inv_step(
        o: &Self,
        f: &Self,
        base: int,
        evs: Seq<(tokenizer::Event, usize)>,
        m: int,
        r: Result<(), ParseError>,
    )
        requires
            0 <= m < evs.len(),
            base >= 0,
            o.wf(),
            o.text_inv(base, evs, m),
            o.fed@.len() == base + evs[m].1 + 1,
            f.fed@ == o.fed@,
            Self::other_event_done(f, o, evs[m].0, r),
            r is Ok,
        ensures
            f.text_inv(base, evs, m + 1),
    {
        reveal(StreamParser::other_event_done);
        let t = evs[m].0;
        lemma_last_open_prefix(evs, Seq::empty(), m);
        let b = last_open(evs, m + 1);
        let sb = f.stream_buffer;
        assert(sb.tokenize_pos == o.stream_buffer.tokenize_pos);
        if opens_text(t) {
            assert(b == m);
            assert(!escape_end_between(evs, m, m + 1));
            assert(sb == o.stream_buffer);
            assert(o.stream_buffer.tokenize_pos <= o.stream_buffer.data().len());
            assert(sb.data().subrange(sb.tokenize_pos as int, sb.tokenize_pos as int) =~= f.fed@.subrange(
                f.fed@.len() as int,
                f.fed@.len() as int,
            ));
        } else if b >= 0 {
            assert(b == last_open(evs, m));
            if f.state is String || f.state is Key {
                assert(f.state == o.state);
                if escape_end_between(evs, b, m + 1) {
                    let j = choose|j: int| b < j < m + 1 && simple_escape_end(#[trigger] evs[j].0);
                    if j < m {
                        assert(escape_end_between(evs, b, m));
                    }
                }
            }
        }
    }

    /// What an error `e` from reading input says of the parser right after:
    /// the reader's read failed (`ReaderError`); the buffer has no free space
    /// left for input, or none for unescaped text, and no room could be made
    /// (`ScratchBufferFull`); or the buffer's bookkeeping is off (an
    /// unexpected state, or no data at the read position).
    pub closed spec fn input_failed(&self, e: ParseError) -> bool {
        let len = self.stream_buffer.data().len();
        ||| e == ParseError::ReaderError && self.reader.failed()
        ||| e == ParseError::ScratchBufferFull && (self.stream_buffer.data_end >= len
            || self.stream_buffer.unescaped_len >= len)
        ||| e is Unexpected
        ||| e == ParseError::EndOfData
    }

    /// What an error `e` from handling a tokenizer event says of the parser
    /// right after (no other event fails): a key or string end fails when
    /// the parser was not in one of that kind, or its text could not be had
    /// from the buffer or is not UTF-8; a number end fails when the parser
    /// was not in a number, or its text is out of range or not a number; the
    /// start of an escape fails only inside a string or key, when its text
    /// cannot be moved to the buffer's start (`ScratchBufferFull` when it
    /// does not fit); a simple escape fails when its token is not one, or
    /// inside a string or key when there is no room left for its character
    /// (`ScratchBufferFull`); a `\\uXXXX` escape fails only inside a string
    /// or key, and never with a tokenizer or reader error.
    pub closed spec fn failed_on(&self, last: tokenizer::Event, e: ParseError) -> bool {
        let in_string = self.state is String || self.state is Key;
        let len = self.stream_buffer.data().len();
        let mismatch = ParseError::Unexpected(UnexpectedState::StateMismatch);
        match last {
            tokenizer::Event::End(EventToken::Key) => e == mismatch && !(self.state is Key) || self.state is Empty && (
            e is InvalidUtf8 || e is Unexpected),
            tokenizer::Event::End(EventToken::String) => e == mismatch && !(self.state is String) || self.state is Empty
                && (e is InvalidUtf8 || e is Unexpected),
            tokenizer::Event::End(EventToken::Number)
            | tokenizer::Event::End(EventToken::NumberAndArray)
            | tokenizer::Event::End(EventToken::NumberAndObject) => e == mismatch && !(self.state is Number)
                || self.state is Empty && (e == ParseError::Unexpected(UnexpectedState::InvalidSliceBounds)
                || e is InvalidNumber || e is InvalidUtf8),
            tokenizer::Event::Begin(EventToken::EscapeSequence) => in_string && (e == ParseError::NumericOverflow || e
                == ParseError::ScratchBufferFull || e is Unexpected || e == ParseError::EndOfData),
            tokenizer::Event::End(EventToken::UnicodeEscape) => in_string && !(e is TokenizerError) && !(
            e is ReaderError),
            tokenizer::Event::End(t) => spec_escape_char(t) is Some && (spec_escape_token_result(t) == Err::<
                u8,
                ParseError,
            >(e) || in_string && e == ParseError::ScratchBufferFull && self.stream_buffer.unescaped_len >= len),
            _ => false,
        }
    }

    /// What one call of [`StreamParser::next_event`] does, from parser `o`
    /// to parser `f`, returning `r`. It hands the input bytes one at a time
    /// to the tokenizer (and finishes the document once, when the reader has
    /// no more), and handles the tokenizer's events in order, the pending
    /// ones first, until one completes a parser event, which it returns; the
    /// events not yet handled stay pending. It returns `EndDocument` once the
    /// input is exhausted with no event left, and the tokenizer's error when
    /// there is one. When the first pending event completes a parser event,
    /// nothing is read: that event alone is handled. `ReaderError` comes
    /// exactly when a read fails, before any event completes. Any other
    /// error comes from handling the last event taken (see
    /// [`StreamParser::failed_on`]) or from reading input (see
    /// [`StreamParser::input_failed`]). A key or string that opened during
    /// the call has the text that [`text_from_fed`] gives, as long as the
    /// count of bytes fed fits in a `usize` (the tokenizer's positions are
    /// `usize`).
    pub open spec fn spec_next_event(o: &Self, f: &Self, r: Result<Event, ParseError>) -> bool {
        let fresh = f.fed().skip(o.fed().len() as int);
        let run = spec_run(o.tok(), Self::max_depth(), fresh);
        let fin = if !o.finished() && f.finished() {
            event_kinds(spec_finish(f.tok()).0)
        } else {
            Seq::empty()
        };
        let all = o.pending() + event_kinds(run.events) + fin;
        let done = all.take(all.len() - f.pending().len());
        &&& f.wf()
        &&& o.fed().len() <= f.fed().len()
        &&& f.fed().take(o.fed().len() as int) == o.fed()
        &&& o.finished() ==> f.finished()
        &&& canon(f.tok()) == canon(run.next)
        &&& f.pending().len() <= all.len()
        &&& f.pending() == all.skip(all.len() - f.pending().len())
        &&& o.pending().len() > 0 && completes(o.pending()[0]) ==> f.fed() == o.fed() && f.finished() == o.finished()
            && done.len() == 1
        &&& r == Err::<Event, ParseError>(ParseError::ReaderError) ==> f.reader_failed() && none_complete(done)
        &&& f.reader_failed() && !o.reader_failed() ==> r == Err::<Event, ParseError>(ParseError::ReaderError)
        &&& match r {
            Ok(Event::EndDocument) => f.finished() && f.pending().len() == 0 && none_complete(done) && run.err is None
                && (!o.finished() ==> spec_finish(f.tok()).1 is Ok),
            Err(ParseError::TokenizerError(e)) => none_complete(done) && match run.err {
                Some(e2) => strip_err(e) == strip_err(e2),
                None => !o.finished() && f.finished() && spec_finish(f.tok()).1 == Err::<usize, tokenizer::Error>(e),
            },
            Ok(ev) => {
                &&& run.err is None && done.len() > 0 && none_complete(done.drop_last()) && f.event_for(ev, done.last())
                &&& match ev {
                    Event::Key(s) | Event::String(s) => f.fed().len() <= usize::MAX ==> text_from_fed(
                        f.fed(),
                        o.fed().len() as int,
                        run.events,
                        done.len() - 1 - o.pending().len(),
                        s,
                    ),
                    _ => true,
                }
            },
            Err(e) => run.err is None && (done.len() > 0 && none_complete(done.drop_last()) && f.failed_on(
                done.last(),
                e,
            ) || none_complete(done) && f.input_failed(e)),
        }
    }

    /// Create a new StreamParser with a custom configuration.
    pub fn with_config(reader: R, buffer: &'b mut [u8]) -> (r: Self)
        ensures
            r.wf(),
            r.fed().len() == 0,
            r.tok() == initial_view(C::Bucket::capacity()),
            r.pending().len() == 0,
            !r.finished(),
            r.data() == old(buffer)@,
    {
        Self {
            tokenizer: Tokenizer::new(),
            parser_state: ParserState::new(),
            state: State::Empty,
            reader,
            stream_buffer: StreamBuffer::new(buffer),
            processing_state: ProcessingState::Active { unescaped_reset_queued: false, in_escape_sequence: false },
            unicode_escape_collector: UnicodeEscapeCollector::new(),
            fed: Ghost(Seq::empty()),
        }
    }

    /// `processing` with the escape-in-progress mark set to `v`.
    pub open spec fn with_escape(processing: ProcessingState, v: bool) -> ProcessingState {
        match processing {
            ProcessingState::Active { unescaped_reset_queued, .. } => ProcessingState::Active {
                unescaped_reset_queued,
                in_escape_sequence: v,
            },
            ProcessingState::Finished => ProcessingState::Finished,
        }
    }

    /// Whether an escape sequence is in progress.
    closed spec fn in_escape(&self) -> bool {
        match self.processing_state {
            ProcessingState::Active { in_escape_sequence, .. } => in_escape_sequence,
            ProcessingState::Finished => false,
        }
    }

    /// The unescaped text at the buffer's start.
    closed spec fn unescaped(&self) -> Seq<u8> {
        self.stream_buffer.data().take(self.stream_buffer.unescaped_len as int)
    }

    /// `f` has `o`'s tokenizer, events, reader, content state, collector and
    /// buffer positions; the buffer's contents, its unescaped length and the
    /// processing state may differ.
    closed spec fn rest_same(f: &Self, o: &Self) -> bool {
        &&& f.tokenizer == o.tokenizer
        &&& f.parser_state == o.parser_state
        &&& f.fed == o.fed
        &&& f.state == o.state
        &&& f.reader == o.reader
        &&& f.stream_buffer.tokenize_pos == o.stream_buffer.tokenize_pos
        &&& f.stream_buffer.data_end == o.stream_buffer.data_end
        &&& f.stream_buffer.data().len() == o.stream_buffer.data().len()
    }

    /// Appending `b` to the unescaped text, from `o` to `f`, returning `r`:
    /// it is written after the unescaped text when there is room, else the
    /// scratch space is full and the text stays.
    closed spec fn byte_appended(f: &Self, o: &Self, b: u8, r: Result<(), ParseError>) -> bool {
        let ul = o.stream_buffer.unescaped_len;
        if ul < o.stream_buffer.data().len() {
            &&& r is Ok
            &&& f.stream_buffer.data() == o.stream_buffer.data().update(ul as int, b)
            &&& f.stream_buffer.unescaped_len == ul + 1
        } else {
            &&& r == Err::<(), ParseError>(ParseError::ScratchBufferFull)
            &&& f.stream_buffer.data() == o.stream_buffer.data()
            &&& f.stream_buffer.unescaped_len == ul
        }
    }

    /// What the `\\uXXXX` escape whose digits end at the read position does
    /// (see [`unicode_escape_effect`]); `None` when its digits are not in
    /// the buffer.
    closed spec fn unicode_effect(&self) -> Option<(Seq<u8>, Option<u32>)> {
        let pos = self.stream_buffer.tokenize_pos;
        if 4 <= pos && pos <= self.stream_buffer.data_end && pos <= self.stream_buffer.data().len() {
            unicode_escape_effect(
                self.stream_buffer.data().subrange(pos - 4, pos as int),
                self.unicode_escape_collector.digits(),
                self.unicode_escape_collector.pending(),
            )
        } else {
            None
        }
    }

    /// A complete `\\uXXXX` escape, from `o` to `f`, returning `r`: not
    /// valid, it fails; done, its UTF-8 bytes follow the unescaped text and
    /// the collector keeps the high surrogate that then waits; it succeeds
    /// whenever it is valid and its bytes fit.
    closed spec fn unicode_done(f: &Self, o: &Self, r: Result<(), ParseError>) -> bool {
        &&& o.unicode_effect() is None ==> r is Err
        &&& r is Ok ==> (o.unicode_effect() matches Some((b, p)) && f.stream_buffer.unescaped_len
            == o.stream_buffer.unescaped_len + b.len() && f.unescaped() == o.unescaped() + b
            && f.unicode_escape_collector.pending() == p)
        &&& (o.unicode_effect() matches Some((b, _)) && o.stream_buffer.unescaped_len + b.len()
            <= o.stream_buffer.data().len()) ==> r is Ok
        &&& r is Ok && f.stream_buffer.unescaped_len == o.stream_buffer.unescaped_len ==> f.stream_buffer.data()
            == o.stream_buffer.data()
    }

    /// Beginning an escape, from `o` to `f`, returning `r`: inside a string
    /// or key with no unescaped text yet, the text so far (up to just before
    /// the backslash, or none after a high surrogate waiting for its pair)
    /// becomes the unescaped text; otherwise the text stays.
    closed spec fn escape_begun(f: &Self, o: &Self, r: Result<(), ParseError>) -> bool {
        let start = match o.state {
            State::String(p) | State::Key(p) => Some(p),
            _ => None,
        };
        match start {
            Some(p) if o.stream_buffer.unescaped_len == 0 => {
                let end = if o.unicode_escape_collector.pending() is Some {
                    p
                } else {
                    sat_sub(o.stream_buffer.tokenize_pos, 1)
                };
                &&& r is Ok ==> f.unescaped() == if p < end && p < o.stream_buffer.data_end {
                    o.stream_buffer.data().subrange(p as int, end as int)
                } else {
                    Seq::<u8>::empty()
                }
                &&& r is Ok && f.stream_buffer.unescaped_len == 0 ==> f.stream_buffer.data() == o.stream_buffer.data()
            },
            _ => r is Ok && f.stream_buffer.data() == o.stream_buffer.data() && f.stream_buffer.unescaped_len
                == o.stream_buffer.unescaped_len,
        }
    }

    /// Handling a tokenizer event that completes no parser event, from `o`
    /// to `f`, returning `r`: a key or string begins at the read position, a
    /// number at the byte before it; an escape begins (see
    /// [`StreamParser::escape_begun`]); a simple escape clears the collector
    /// and, inside a string or key, appends its character; a `\\uXXXX`
    /// escape begins with no digits, and at its end, inside a string or key,
    /// is done (see [`StreamParser::unicode_done`]); other events change
    /// nothing.
    #[verifier::opaque]
    closed spec fn other_event_done(f: &Self, o: &Self, event: tokenizer::Event, r: Result<(), ParseError>) -> bool {
        let in_string = o.state is String || o.state is Key;
        let pos = o.stream_buffer.tokenize_pos;
        let untouched = f.stream_buffer == o.stream_buffer && f.processing_state == o.processing_state
            && f.unicode_escape_collector == o.unicode_escape_collector;
        let done = match event {
            tokenizer::Event::Begin(EventToken::Key) => r is Ok && untouched && f.state == State::Key(pos),
            tokenizer::Event::Begin(EventToken::String) => r is Ok && untouched && f.state == State::String(pos),
            tokenizer::Event::Begin(EventToken::Number)
            | tokenizer::Event::Begin(EventToken::NumberAndArray)
            | tokenizer::Event::Begin(EventToken::NumberAndObject) => r is Ok && untouched && f.state == State::Number(
                sat_sub(pos, 1),
            ),
            tokenizer::Event::Begin(EventToken::EscapeSequence) => {
                &&& f.state == o.state
                &&& f.processing_state == Self::with_escape(o.processing_state, true)
                &&& f.unicode_escape_collector == o.unicode_escape_collector
                &&& Self::escape_begun(f, o, r)
            },
            tokenizer::Event::Begin(EventToken::UnicodeEscape) => {
                &&& r is Ok
                &&& f.state == o.state
                &&& f.stream_buffer == o.stream_buffer
                &&& f.processing_state == o.processing_state
                &&& if in_string {
                    f.unicode_escape_collector.digits() == Seq::<u8>::empty()
                        && f.unicode_escape_collector.pending() == o.unicode_escape_collector.pending()
                } else {
                    f.unicode_escape_collector == o.unicode_escape_collector
                }
            },
            tokenizer::Event::End(EventToken::UnicodeEscape) => f.state == o.state && if in_string {
                f.processing_state == Self::with_escape(o.processing_state, false) && Self::unicode_done(f, o, r)
            } else {
                r is Ok && untouched
            },
            tokenizer::Event::End(t) if spec_escape_char(t) is Some => {
                &&& f.state == o.state
                &&& f.unicode_escape_collector.digits() == Seq::<u8>::empty()
                &&& f.unicode_escape_collector.pending() is None
                &&& match spec_escape_token_result(t) {
                    Err(e) => r == Err::<(), ParseError>(e) && f.stream_buffer == o.stream_buffer
                        && f.processing_state == o.processing_state,
                    Ok(c) => if in_string {
                        f.processing_state == Self::with_escape(o.processing_state, false) && Self::byte_appended(
                            f,
                            o,
                            c,
                            r,
                        )
                    } else {
                        r is Ok && f.stream_buffer == o.stream_buffer && f.processing_state == o.processing_state
                    },
                }
            },
            _ => r is Ok && untouched && f.state == o.state,
        };
        done && (r is Ok ==> f.stream_buffer.tokenize_pos == o.stream_buffer.tokenize_pos)
    }

    /// The text of the key, string or number in progress (from its start to the read
    /// position) is the same in `f` as in `o`, with `extra` read after it;
    /// compaction may have moved it.
    #[verifier::opaque]
    closed spec fn content_kept(f: &Self, o: &Self, extra: Seq<u8>) -> bool {
        match (o.state, f.state) {
            (State::String(p), State::String(p2))
            | (State::Key(p), State::Key(p2))
            | (State::Number(p), State::Number(p2)) => p <= o.stream_buffer.tokenize_pos ==> {
                &&& p2 <= f.stream_buffer.tokenize_pos <= f.stream_buffer.data().len()
                &&& p2 + (o.stream_buffer.tokenize_pos - p) + extra.len() == f.stream_buffer.tokenize_pos
                &&& f.stream_buffer.data().subrange(p2 as int, f.stream_buffer.tokenize_pos as int)
                    == o.stream_buffer.data().subrange(p as int, o.stream_buffer.tokenize_pos as int) + extra
            },
            (State::String(_), _)
            | (State::Key(_), _)
            | (State::Number(_), _)
            | (_, State::String(_))
            | (_, State::Key(_))
            | (_, State::Number(_)) => false,
            _ => true,
        }
    }

    /// What reading a byte (`Some`) or reaching the end (`None`) does to the
    /// key or string in progress: its text is kept, followed by the byte.
    #[verifier::opaque]
    closed spec fn text_carried(f: &Self, o: &Self, r: Result<Option<u8>, ParseError>) -> bool {
        &&& f.stream_buffer.unescaped_len == o.stream_buffer.unescaped_len
        &&& match r {
            Ok(None) => Self::content_kept(f, o, Seq::empty()),
            Ok(Some(b)) => Self::content_kept(f, o, seq![b]),
            Err(_) => true,
        }
    }

    /// `f` differs from `o` at most in the buffer contents and positions,
    /// the content state and the reader, with no more input to come.
    closed spec fn kept(f: &Self, o: &Self) -> bool {
        &&& f.wf()
        &&& f.tok() == o.tok()
        &&& f.pending() == o.pending()
        &&& f.fed() == o.fed()
        &&& f.finished() == o.finished()
        &&& f.to_come() <= o.to_come()
    }

    /// Discarding buffered text up to `offset` (by compaction) fails when
    /// a string, key or number in progress started inside it (except at the
    /// buffer's start); the switch to escape mode this would need is not
    /// supported.
    fn switch_key_to_escape_mode(&mut self, original_pos: usize, offset: usize) -> (r: Result<(), ParseError>)
        ensures
            *final(self) == *old(self),
            r is Ok <==> sat_sub(offset, original_pos) == 0,
            r matches Err(e) ==> e is ScratchBufferFull,
    {
        let discarded_content = offset.saturating_sub(original_pos);
        if discarded_content > 0 {
            return Err(ParseError::ScratchBufferFull);
        }
        Ok(())
    }

    /// See [`StreamParser::switch_key_to_escape_mode`]; the same for strings.
    fn switch_string_to_escape_mode(&mut self, original_pos: usize, offset: usize) -> (r: Result<(), ParseError>)
        ensures
            *final(self) == *old(self),
            r is Ok <==> sat_sub(offset, original_pos) == 0,
            r matches Err(e) ==> e is ScratchBufferFull,
    {
        let discarded_content = offset.saturating_sub(original_pos);
        if discarded_content > 0 {
            return Err(ParseError::ScratchBufferFull);
        }
        Ok(())
    }

    /// Moves the recorded start of the string, key or number in progress
    /// back by `offset` after the buffer was compacted by that much.
    fn update_positions_after_compaction(&mut self, offset: usize) -> (r: Result<(), ParseError>)
        ensures
            final(self).tokenizer == old(self).tokenizer,
            final(self).parser_state == old(self).parser_state,
            final(self).fed == old(self).fed,
            final(self).stream_buffer == old(self).stream_buffer,
            final(self).reader == old(self).reader,
            final(self).unicode_escape_collector == old(self).unicode_escape_collector,
            final(self).processing_state == old(self).processing_state,
            match old(self).state {
                State::Key(p) | State::String(p) | State::Number(p) => if 0 < p && p < offset {
                    r == Err::<(), ParseError>(ParseError::ScratchBufferFull)
                } else {
                    r is Ok && final(self).state == match old(self).state {
                        State::Key(_) => State::Key(if p >= offset { (p - offset) as usize } else { p }),
                        State::String(_) => State::String(if p >= offset { (p - offset) as usize } else { p }),
                        _ => State::Number(if p >= offset { (p - offset) as usize } else { 0 }),
                    }
                },
                State::Empty => r is Ok && final(self).state == State::Empty,
            },
    {
        match self.state {
            State::Key(pos) => {
                if pos > 0 && pos < offset {
                    if let Err(e) = self.switch_key_to_escape_mode(pos, offset) {
                        return Err(e);
                    }
                }
            },
            State::String(pos) => {
                if pos > 0 && pos < offset {
                    if let Err(e) = self.switch_string_to_escape_mode(pos, offset) {
                        return Err(e);
                    }
                }
            },
            State::Number(pos) => {
                if pos > 0 && pos < offset {
                    return Err(ParseError::ScratchBufferFull);
                }
            },
            State::Empty => {},
        }
        self.state = match self.state {
            State::Empty => State::Empty,
            State::Key(pos) => State::Key(
                if pos > 0 && pos < offset {
                    0
                } else if pos >= offset {
                    pos - offset
                } else {
                    pos
                },
            ),
            State::String(pos) => State::String(
                if pos > 0 && pos < offset {
                    0
                } else if pos >= offset {
                    pos - offset
                } else {
                    pos
                },
            ),
            State::Number(pos) => State::Number(
                if pos >= offset {
                    pos - offset
                } else {
                    0
                },
            ),
        };
        Ok(())
    }

    /// Reads what the reader gives into the free space after the buffered
    /// data; when there is none, first compacts the buffer from the start of
    /// the content in progress (or the read position).
    fn fill_buffer_from_reader(&mut self) -> (r: Result<(), ParseError>)
        requires
            old(self).wf(),
            old(self).pos() >= old(self).data_end(),
        ensures
            Self::kept(final(self), old(self)),
            r is Ok && final(self).pos() >= final(self).data_end() ==> final(self).reader.remaining() == 0,
            final(self).unicode_escape_collector == old(self).unicode_escape_collector,
            r matches Err(e) ==> !(e is TokenizerError),
            r matches Err(e) ==> final(self).input_failed(e),
            r is Ok ==> Self::content_kept(final(self), old(self), Seq::empty()),
            final(self).stream_buffer.unescaped_len == old(self).stream_buffer.unescaped_len,
            r == Err::<(), ParseError>(ParseError::ReaderError) ==> final(self).reader.failed(),
            final(self).reader.failed() && r != Err::<(), ParseError>(ParseError::ReaderError) ==> old(
                self,
            ).reader.failed(),
    {
        let ghost o0 = *self;
        let filled = match self.stream_buffer.get_fill_slice() {
            Some(fill_slice) => Some(self.reader.read(fill_slice)),
            None => None,
        };
        match filled {
            Some(Ok(bytes_read)) => {
                match self.stream_buffer.mark_filled(bytes_read) {
                    Ok(()) => {},
                    Err(e) => return Err(ParseError::from(e)),
                }
                proof {
                    reveal(StreamParser::content_kept);
                    match o0.state {
                        State::String(p) | State::Key(p) | State::Number(p) => {
                            assert(self.stream_buffer.data().subrange(p as int, self.stream_buffer.tokenize_pos as int)
                                =~= o0.stream_buffer.data().subrange(p as int, o0.stream_buffer.tokenize_pos as int)
                                + Seq::<u8>::empty());
                        },
                        _ => {},
                    }
                }
            },
            Some(Err(_)) => return Err(ParseError::ReaderError),
            None => {
                let compact_start_pos = match self.state {
                    State::Number(start_pos) => start_pos,
                    State::Key(start_pos) => start_pos,
                    State::String(start_pos) => start_pos,
                    _ => self.stream_buffer.current_position(),
                };
                let offset = match self.stream_buffer.compact_from(compact_start_pos) {
                    Ok(o) => o,
                    Err(e) => return Err(ParseError::from(e)),
                };
                if offset == 0 {
                    return Err(ParseError::ScratchBufferFull);
                }
                if let Err(e) = self.update_positions_after_compaction(offset) {
                    return Err(e);
                }
                let ghost mid = *self;
                proof {
                    match o0.state {
                        State::String(p) | State::Key(p) | State::Number(p) => {
                            assert(offset == p);
                            assert(mid.stream_buffer.tokenize_pos == o0.stream_buffer.tokenize_pos - p);
                            assert(mid.stream_buffer.data().subrange(0, mid.stream_buffer.tokenize_pos as int)
                                =~= o0.stream_buffer.data().subrange(p as int, o0.stream_buffer.tokenize_pos as int));
                        },
                        _ => {},
                    }
                }
                let refilled = match self.stream_buffer.get_fill_slice() {
                    Some(fill_slice) => Some(self.reader.read(fill_slice)),
                    None => None,
                };
                match refilled {
                    Some(Ok(bytes_read)) => {
                        match self.stream_buffer.mark_filled(bytes_read) {
                            Ok(()) => {},
                            Err(e) => return Err(ParseError::from(e)),
                        }
                    },
                    Some(Err(_)) => return Err(ParseError::ReaderError),
                    None => {},
                }
                proof {
                    reveal(StreamParser::content_kept);
                    match o0.state {
                        State::String(p) | State::Key(p) | State::Number(p) => {
                            assert(self.stream_buffer.data().subrange(0, self.stream_buffer.tokenize_pos as int)
                                =~= mid.stream_buffer.data().subrange(0, mid.stream_buffer.tokenize_pos as int));
                            assert(self.stream_buffer.data().subrange(0, self.stream_buffer.tokenize_pos as int)
                                =~= o0.stream_buffer.data().subrange(p as int, o0.stream_buffer.tokenize_pos as int)
                                + Seq::<u8>::empty());
                        },
                        _ => {},
                    }
                }
            },
        }
        Ok(())
    }

    /// The next input byte, reading more input when the buffer is used up;
    /// `None` at the end of the input.
    fn next_byte(&mut self) -> (r: Result<Option<u8>, ParseError>)
        requires
            old(self).wf(),
        ensures
            final(self).wf(),
            final(self).tok() == old(self).tok(),
            final(self).pending() == old(self).pending(),
            final(self).fed() == old(self).fed(),
            final(self).finished() == old(self).finished(),
            final(self).unicode_escape_collector == old(self).unicode_escape_collector,
            r matches Ok(Some(_)) ==> final(self).to_come() < old(self).to_come() && !old(self).finished(),
            !(r matches Ok(Some(_))) ==> final(self).to_come() <= old(self).to_come(),
            r == Ok::<Option<u8>, ParseError>(None) ==> final(self).reader.remaining() == 0 && final(self).pos()
                >= final(self).data_end(),
            r matches Err(e) ==> !(e is TokenizerError),
            r matches Err(e) ==> final(self).input_failed(e),
            Self::text_carried(final(self), old(self), r),
            r == Err::<Option<u8>, ParseError>(ParseError::ReaderError) ==> final(self).reader.failed(),
            final(self).reader.failed() && r != Err::<Option<u8>, ParseError>(ParseError::ReaderError) ==> old(
                self,
            ).reader.failed(),
    {
        let ghost o0 = *self;
        proof {
            reveal(StreamParser::text_carried);
        }
        if self.stream_buffer.is_empty() {
            if let Err(e) = self.fill_buffer_from_reader() {
                return Err(e);
            }
        } else {
            proof {
                reveal(StreamParser::content_kept);
                match o0.state {
                    State::String(p) | State::Key(p) | State::Number(p) => {
                        assert(self.stream_buffer.data().subrange(p as int, self.stream_buffer.tokenize_pos as int)
                            =~= o0.stream_buffer.data().subrange(p as int, o0.stream_buffer.tokenize_pos as int)
                            + Seq::<u8>::empty());
                    },
                    _ => {},
                }
            }
        }
        let ghost m1 = *self;
        if self.stream_buffer.is_empty() {
            proof {
                reveal(StreamParser::text_carried);
            }
            return Ok(None);
        }
        let byte = match self.stream_buffer.current_byte() {
            Ok(b) => b,
            Err(e) => return Err(ParseError::from(e)),
        };
        match self.stream_buffer.advance() {
            Ok(()) => {},
            Err(e) => return Err(ParseError::from(e)),
        }
        proof {
            reveal(StreamParser::content_kept);
            reveal(StreamParser::text_carried);
            match o0.state {
                State::String(p) | State::Key(p) | State::Number(p) => {
                    if p <= o0.stream_buffer.tokenize_pos {
                        match m1.state {
                            State::String(p2) | State::Key(p2) | State::Number(p2) => {
                                assert(self.stream_buffer.data().subrange(p2 as int, self.stream_buffer.tokenize_pos as int)
                                    =~= m1.stream_buffer.data().subrange(p2 as int, m1.stream_buffer.tokenize_pos as int)
                                    .push(byte));
                                assert(m1.stream_buffer.data().subrange(p2 as int, m1.stream_buffer.tokenize_pos as int)
                                    == o0.stream_buffer.data().subrange(p as int, o0.stream_buffer.tokenize_pos as int)
                                    + Seq::<u8>::empty());
                                assert(o0.stream_buffer.data().subrange(p as int, o0.stream_buffer.tokenize_pos as int)
                                    + Seq::<u8>::empty() =~= o0.stream_buffer.data().subrange(p as int, o0.stream_buffer.tokenize_pos as int));
                                assert(self.stream_buffer.data().subrange(p2 as int, self.stream_buffer.tokenize_pos as int)
                                    =~= o0.stream_buffer.data().subrange(p as int, o0.stream_buffer.tokenize_pos as int)
                                    + seq![byte]);
                            },
                            _ => {},
                        }
                    }
                },
                _ => {},
            }
        }
        Ok(Some(byte))
    }

    /// Queue a reset of unescaped content for the next `next_event` call.
    fn queue_unescaped_reset(&mut self)
        requires
            old(self).wf(),
        ensures
            final(self).reader == old(self).reader,
            Self::kept(final(self), old(self)),
            final(self).stream_buffer == old(self).stream_buffer,
            final(self).state == old(self).state,
            final(self).processing_state == match old(self).processing_state {
                ProcessingState::Active { in_escape_sequence, .. } => ProcessingState::Active {
                    unescaped_reset_queued: true,
                    in_escape_sequence,
                },
                ProcessingState::Finished => ProcessingState::Finished,
            },
    {
        if let ProcessingState::Active { in_escape_sequence, .. } = self.processing_state {
            self.processing_state = ProcessingState::Active { unescaped_reset_queued: true, in_escape_sequence };
        }
    }

    /// Clears the unescaped content if a reset was queued.
    fn apply_unescaped_reset_if_queued(&mut self)
        requires
            old(self).wf(),
        ensures
            final(self).reader == old(self).reader,
            Self::kept(final(self), old(self)),
            final(self).state == old(self).state,
            match old(self).processing_state {
                ProcessingState::Active { unescaped_reset_queued: true, in_escape_sequence } => final(self).processing_state
                    == (ProcessingState::Active { unescaped_reset_queued: false, in_escape_sequence })
                    && final(self).unescaped_len() == 0 && final(self).data() == old(self).data(),
                _ => final(self).processing_state == old(self).processing_state && final(self).stream_buffer
                    == old(self).stream_buffer,
            },
    {
        if let ProcessingState::Active { unescaped_reset_queued, in_escape_sequence } = self.processing_state {
            if unescaped_reset_queued {
                self.processing_state = ProcessingState::Active { unescaped_reset_queued: false, in_escape_sequence };
                self.stream_buffer.clear_unescaped();
            }
        }
    }

    /// Marks whether an escape sequence is in progress.
    fn set_in_escape(&mut self, value: bool)
        requires
            old(self).wf(),
        ensures
            final(self).stream_buffer.tokenize_pos == old(self).stream_buffer.tokenize_pos,
            Self::kept(final(self), old(self)),
            final(self).stream_buffer == old(self).stream_buffer,
            final(self).state == old(self).state,
            final(self).unicode_escape_collector == old(self).unicode_escape_collector,
            Self::rest_same(final(self), old(self)),
            final(self).processing_state == Self::with_escape(old(self).processing_state, value),
    {
        if let ProcessingState::Active { unescaped_reset_queued, .. } = self.processing_state {
            self.processing_state = ProcessingState::Active { unescaped_reset_queued, in_escape_sequence: value };
        }
    }

    /// Append a byte to the unescaped content.
    fn append_byte_to_escape_buffer(&mut self, byte: u8) -> (r: Result<(), ParseError>)
        requires
            old(self).wf(),
        ensures
            final(self).stream_buffer.tokenize_pos == old(self).stream_buffer.tokenize_pos,
            Self::kept(final(self), old(self)),
            final(self).state == old(self).state,
            Self::rest_same(final(self), old(self)),
            final(self).processing_state == old(self).processing_state,
            final(self).unicode_escape_collector == old(self).unicode_escape_collector,
            Self::byte_appended(final(self), old(self), byte, r),
            r matches Err(e) ==> !(e is TokenizerError) && !(e is ReaderError),
    {
        match self.stream_buffer.append_unescaped_byte(byte) {
            Ok(()) => Ok(()),
            Err(e) => Err(ParseError::from(e)),
        }
    }

    /// Inside a string or key whose text is being unescaped, adds a byte
    /// that produced no event (an ordinary character) to the unescaped text.
    fn handle_byte_accumulation(&mut self, byte: u8) -> (r: Result<(), ParseError>)
        requires
            old(self).wf(),
        ensures
            Self::kept(final(self), old(self)),
            Self::rest_same(final(self), old(self)),
            final(self).processing_state == old(self).processing_state,
            final(self).unicode_escape_collector == old(self).unicode_escape_collector,
            if (old(self).state is String || old(self).state is Key) && !old(self).in_escape()
                && old(self).stream_buffer.unescaped_len > 0 && old(self).unicode_escape_collector.pending() is None {
                Self::byte_appended(final(self), old(self), byte, r)
            } else {
                r is Ok && final(self).stream_buffer == old(self).stream_buffer
            },
            r matches Err(e) ==> !(e is TokenizerError) && !(e is ReaderError),
            r matches Err(e) ==> final(self).input_failed(e),
    {
        let in_string_mode = match self.state {
            State::String(_) | State::Key(_) => true,
            _ => false,
        };
        if in_string_mode {
            let in_escape = match self.processing_state {
                ProcessingState::Active { in_escape_sequence, .. } => in_escape_sequence,
                ProcessingState::Finished => false,
            };
            if !in_escape && self.stream_buffer.has_unescaped_content()
                && !self.unicode_escape_collector.has_pending_high_surrogate() {
                return self.append_byte_to_escape_buffer(byte);
            }
        }
        Ok(())
    }

    /// At the start of an escape in a string or key: begins unescaping, by
    /// copying the text so far to the buffer's start, unless it has begun.
    fn start_escape_processing(&mut self) -> (r: Result<(), ParseError>)
        requires
            old(self).wf(),
        ensures
            final(self).stream_buffer.tokenize_pos == old(self).stream_buffer.tokenize_pos,
            Self::kept(final(self), old(self)),
            Self::rest_same(final(self), old(self)),
            final(self).processing_state == Self::with_escape(old(self).processing_state, true),
            final(self).unicode_escape_collector == old(self).unicode_escape_collector,
            Self::escape_begun(final(self), old(self), r),
            r matches Err(e) ==> !(e is TokenizerError) && !(e is ReaderError),
            r matches Err(e) ==> (old(self).state is String || old(self).state is Key) && (e
                == ParseError::NumericOverflow || e == ParseError::ScratchBufferFull || e is Unexpected || e
                == ParseError::EndOfData),
    {
        self.set_in_escape(true);
        if !self.stream_buffer.has_unescaped_content() {
            let start = match self.state {
                State::String(p) => Some(p),
                State::Key(p) => Some(p),
                _ => None,
            };
            if let Some(start_pos) = start {
                let current_pos = self.stream_buffer.current_position();
                let content_start = start_pos;
                let content_end = if self.unicode_escape_collector.has_pending_high_surrogate() {
                    content_start
                } else {
                    ContentRange::end_position_excluding_delimiter(current_pos)
                };
                let content_len = content_end.wrapping_sub(content_start);
                let max_escaped_len = match self.stream_buffer.remaining_bytes().checked_add(content_len) {
                    Some(v) => v,
                    None => return Err(ParseError::NumericOverflow),
                };
                let ghost before = self.stream_buffer.data();
                match self.stream_buffer.start_unescaping_with_copy(max_escaped_len, content_start, content_end) {
                    Ok(()) => {},
                    Err(e) => return Err(ParseError::from(e)),
                }
                proof {
                    if content_start < content_end && content_start < self.stream_buffer.data_end {
                        assert(self.unescaped() =~= before.subrange(content_start as int, content_end as int));
                    } else {
                        assert(self.unescaped() =~= Seq::<u8>::empty());
                    }
                }
            }
        }
        Ok(())
    }

    /// At the end of a `\uXXXX` escape in a string or key: adds its UTF-8
    /// encoding to the unescaped text (a high surrogate waits for its pair).
    fn process_unicode_escape_with_collector(&mut self) -> (r: Result<(), ParseError>)
        requires
            old(self).wf(),
        ensures
            final(self).stream_buffer.tokenize_pos == old(self).stream_buffer.tokenize_pos,
            Self::kept(final(self), old(self)),
            Self::rest_same(final(self), old(self)),
            final(self).processing_state == Self::with_escape(old(self).processing_state, false),
            Self::unicode_done(final(self), old(self), r),
            r matches Err(e) ==> !(e is TokenizerError) && !(e is ReaderError),
    {
        self.set_in_escape(false);
        let current_pos = self.stream_buffer.current_position();
        let (hex_start, hex_end, _escape_start) = ContentRange::unicode_escape_bounds(current_pos);
        let hex = match self.stream_buffer.get_string_slice(hex_start, hex_end) {
            Ok(h) => h,
            Err(e) => return Err(ParseError::from(e)),
        };
        let (utf8, _escape_start_pos) = match process_unicode_escape_sequence(
            current_pos,
            &mut self.unicode_escape_collector,
            hex,
        ) {
            Ok(v) => v,
            Err(e) => return Err(e),
        };
        proof {
            assert(hex@.len() == 4);
            assert(hex@ == old(self).stream_buffer.data().subrange(current_pos - 4, current_pos as int));
        }
        if let Some((bytes, len)) = utf8 {
            proof {
                assert(old(self).unicode_effect() == Some(
                    (bytes@.take(len as int), self.unicode_escape_collector.pending()),
                ));
            }
            let ghost mid = *self;
            let mut i: usize = 0;
            while i < len
                invariant
                    Self::kept(self, old(self)),
                    Self::rest_same(self, old(self)),
                    self.processing_state == Self::with_escape(old(self).processing_state, false),
                    self.unicode_escape_collector == mid.unicode_escape_collector,
                    len <= 4,
                    i <= len,
                    old(self).unicode_effect() == Some((bytes@.take(len as int), mid.unicode_escape_collector.pending())),
                    self.stream_buffer.unescaped_len == old(self).stream_buffer.unescaped_len + i,
                    i > 0 ==> self.unescaped() == old(self).unescaped() + bytes@.take(len as int).take(i as int),
                    i == 0 ==> self.stream_buffer.data() == old(self).stream_buffer.data(),
                    old(self).stream_buffer.unescaped_len + len <= old(self).stream_buffer.data().len()
                        ==> self.stream_buffer.unescaped_len + (len - i) <= self.stream_buffer.data().len(),
                decreases len - i,
            {
                let ghost prev = *self;
                if let Err(e) = self.append_byte_to_escape_buffer(bytes[i]) {
                    return Err(e);
                }
                proof {
                    assert(bytes@.take(len as int).take(i + 1) =~= bytes@.take(len as int).take(i as int).push(bytes[i as int]));
                    assert(self.unescaped() =~= prev.unescaped().push(bytes[i as int]));
                    if i == 0 {
                        assert(prev.unescaped() =~= old(self).unescaped());
                    }
                    assert(self.unescaped() =~= old(self).unescaped() + bytes@.take(len as int).take(i + 1));
                }
                i = i + 1;
            }
            proof {
                assert(bytes@.take(len as int).take(len as int) =~= bytes@.take(len as int));
                if len == 0 {
                    assert(self.unescaped() =~= old(self).unescaped() + bytes@.take(len as int));
                }
            }
        } else {
            proof {
                assert(old(self).unicode_effect() == Some((Seq::<u8>::empty(), self.unicode_escape_collector.pending())));
                assert(old(self).unescaped() + Seq::<u8>::empty() =~= old(self).unescaped());
            }
        }
        Ok(())
    }

    /// A simple escape in a string or key: its character goes to the
    /// unescaped text.
    fn handle_simple_escape_char(&mut self, escape_char: u8) -> (r: Result<(), ParseError>)
        requires
            old(self).wf(),
        ensures
            final(self).stream_buffer.tokenize_pos == old(self).stream_buffer.tokenize_pos,
            Self::kept(final(self), old(self)),
            Self::rest_same(final(self), old(self)),
            final(self).processing_state == Self::with_escape(old(self).processing_state, false),
            final(self).unicode_escape_collector == old(self).unicode_escape_collector,
            Self::byte_appended(final(self), old(self), escape_char, r),
            r matches Err(e) ==> !(e is TokenizerError) && !(e is ReaderError),
    {
        self.set_in_escape(false);
        self.append_byte_to_escape_buffer(escape_char)
    }

    /// Handles a tokenizer event that does not complete a parser event:
    /// the start of a string, key or number, and escapes.
    fn process_other_event(&mut self, event: tokenizer::Event) -> (r: Result<(), ParseError>)
        requires
            old(self).wf(),
        ensures
            Self::kept(final(self), old(self)),
            Self::other_event_done(final(self), old(self), event, r),
            r matches Err(e) ==> !(e is TokenizerError) && !(e is ReaderError),
            r matches Err(e) ==> final(self).failed_on(event, e),
            final(self).reader == old(self).reader,
    {
        proof {
            reveal(StreamParser::other_event_done);
        }
        let in_string = match self.state {
            State::String(_) | State::Key(_) => true,
            _ => false,
        };
        match event {
            tokenizer::Event::Begin(EventToken::Key) => {
                let pos = self.stream_buffer.current_position();
                self.state = State::Key(pos);
                Ok(())
            },
            tokenizer::Event::Begin(EventToken::String) => {
                let pos = self.stream_buffer.current_position();
                self.state = State::String(pos);
                Ok(())
            },
            tokenizer::Event::Begin(EventToken::Number)
            | tokenizer::Event::Begin(EventToken::NumberAndArray)
            | tokenizer::Event::Begin(EventToken::NumberAndObject) => {
                let number_start = ContentRange::number_start_from_current(self.stream_buffer.current_position());
                self.state = State::Number(number_start);
                Ok(())
            },
            tokenizer::Event::Begin(EventToken::EscapeSequence) => self.start_escape_processing(),
            tokenizer::Event::End(EventToken::EscapeQuote)
            | tokenizer::Event::End(EventToken::EscapeBackslash)
            | tokenizer::Event::End(EventToken::EscapeSlash)
            | tokenizer::Event::End(EventToken::EscapeBackspace)
            | tokenizer::Event::End(EventToken::EscapeFormFeed)
            | tokenizer::Event::End(EventToken::EscapeNewline)
            | tokenizer::Event::End(EventToken::EscapeCarriageReturn)
            | tokenizer::Event::End(EventToken::EscapeTab) => {
                self.unicode_escape_collector.reset_all();
                let token = match event {
                    tokenizer::Event::End(t) => t,
                    _ => EventToken::EscapeQuote,
                };
                let unescaped_char = match EscapeProcessor::process_escape_token(&token) {
                    Ok(c) => c,
                    Err(e) => return Err(e),
                };
                if in_string {
                    self.handle_simple_escape_char(unescaped_char)
                } else {
                    Ok(())
                }
            },
            tokenizer::Event::Begin(EventToken::UnicodeEscape) => {
                if in_string {
                    self.unicode_escape_collector.reset();
                }
                Ok(())
            },
            tokenizer::Event::End(EventToken::UnicodeEscape) => {
                if in_string {
                    self.process_unicode_escape_with_collector()
                } else {
                    Ok(())
                }
            },
            _ => Ok(()),
        }
    }

    /// Ends the current string (`key`: the current key) and returns it:
    /// the unescaped text when there is one, else the text in the buffer.
    fn extract_content(&mut self, key: bool) -> (r: Result<Event<'_, '_>, ParseError>)
        requires
            old(self).wf(),
        ensures
            Self::kept(final(self), old(self)),
            r matches Ok(ev) ==> Self::text_source(old(self), ev),
            r matches Ok(ev) ==> if key {
                ev matches Event::Key(s) && final(self).string_text_ok(s)
            } else {
                ev matches Event::String(s) && final(self).string_text_ok(s)
            },
            r matches Err(e) ==> !(e is TokenizerError) && !(e is ReaderError),
            r matches Err(e) ==> final(self).failed_on(
                if key {
                    tokenizer::Event::End(EventToken::Key)
                } else {
                    tokenizer::Event::End(EventToken::String)
                },
                e,
            ),
            final(self).reader == old(self).reader,
    {
        let start_pos = match self.state {
            State::Key(p) => if key {
                p
            } else {
                return Err(ParseError::Unexpected(UnexpectedState::StateMismatch));
            },
            State::String(p) => if !key {
                p
            } else {
                return Err(ParseError::Unexpected(UnexpectedState::StateMismatch));
            },
            _ => return Err(ParseError::Unexpected(UnexpectedState::StateMismatch)),
        };
        self.state = State::Empty;
        if self.stream_buffer.has_unescaped_content() {
            self.queue_unescaped_reset();
            let unescaped_slice = match self.stream_buffer.get_unescaped_slice() {
                Ok(s) => s,
                Err(e) => return Err(ParseError::from(e)),
            };
            match from_utf8(unescaped_slice) {
                Ok(t) => if key {
                    Ok(Event::Key(String::Unescaped(t)))
                } else {
                    Ok(Event::String(String::Unescaped(t)))
                },
                Err(e) => Err(e),
            }
        } else {
            let current_pos = self.stream_buffer.current_position();
            let (content_start, content_end) = ContentRange::string_content_bounds_from_content_start(
                start_pos,
                current_pos,
            );
            let bytes = match self.stream_buffer.get_string_slice(content_start, content_end) {
                Ok(b) => b,
                Err(e) => return Err(ParseError::from(e)),
            };
            proof {
                let e = sat_sub(current_pos, 1);
                assert(bytes@ =~= self.data().subrange(e - bytes@.len(), e as int));
            }
            match from_utf8(bytes) {
                Ok(t) => if key {
                    Ok(Event::Key(String::Borrowed(t)))
                } else {
                    Ok(Event::String(String::Borrowed(t)))
                },
                Err(e) => Err(e),
            }
        }
    }

    /// A number returned from `o` (where it was in progress) to `f` is the
    /// buffered bytes from where it began up to its end (see
    /// [`StreamParser::extract_number`]).
    #[verifier::opaque]
    closed spec fn number_from_start(f: &Self, o: &Self, from_container_end: bool, r: Result<Event, ParseError>) -> bool {
        let end = if !from_container_end && f.finished() {
            f.pos()
        } else {
            sat_sub(f.pos(), 1)
        };
        r matches Ok(Event::Number(JsonNumber::Borrowed { raw, .. })) ==> match o.state {
            State::Number(p) => raw.spec_bytes() == f.data().subrange(p as int, end as int),
            _ => false,
        }
    }

    /// Ends the current number and returns it: the buffered bytes from where
    /// it began; the delimiter just read is left out, except for a number
    /// that ends the input.
    fn extract_number(&mut self, from_container_end: bool) -> (r: Result<Event<'_, '_>, ParseError>)
        requires
            old(self).wf(),
        ensures
            Self::kept(final(self), old(self)),
            ({
                let end = if !from_container_end && final(self).finished() {
                    final(self).pos()
                } else {
                    sat_sub(final(self).pos(), 1)
                };
                r matches Ok(ev) ==> ev matches Event::Number(JsonNumber::Borrowed { raw, parsed })
                    && parsed == spec_number_result(raw.spec_bytes())
                    && raw.spec_bytes().len() <= end
                    && raw.spec_bytes() == final(self).data().subrange(end - raw.spec_bytes().len(), end as int)
            }),
            Self::number_from_start(final(self), old(self), from_container_end, r),
            r matches Err(e) ==> !(e is TokenizerError) && !(e is ReaderError),
            r matches Err(e) ==> forall|t: EventToken|
                (t == EventToken::Number || t == EventToken::NumberAndArray || t == EventToken::NumberAndObject)
                    ==> #[trigger] final(self).failed_on(tokenizer::Event::End(t), e),
            final(self).reader == old(self).reader,
    {
        proof {
            reveal(StreamParser::number_from_start);
        }
        let start_pos = match self.state {
            State::Number(p) => p,
            _ => return Err(ParseError::Unexpected(UnexpectedState::StateMismatch)),
        };
        self.state = State::Empty;
        let finished = match self.processing_state {
            ProcessingState::Finished => true,
            _ => false,
        };
        let buffer_current_pos = self.stream_buffer.current_position();
        let corrected_pos = if !from_container_end && finished {
            buffer_current_pos
        } else {
            buffer_current_pos.saturating_sub(1)
        };
        let number_bytes = match self.stream_buffer.get_string_slice(start_pos, corrected_pos) {
            Ok(b) => b,
            Err(_) => return Err(ParseError::Unexpected(UnexpectedState::InvalidSliceBounds)),
        };
        match JsonNumber::from_slice(number_bytes) {
            Ok(n) => Ok(Event::Number(n)),
            Err(e) => Err(e),
        }
    }

    /// Get the next JSON event from the stream.
    #[verifier::rlimit(100)]
    #[verifier::spinoff_prover]
    pub fn next_event(&mut self) -> (r: Result<Event<'_, '_>, ParseError>)
        requires
            old(self).wf(),
        ensures
            Self::spec_next_event(old(self), final(self), r),
    {
        self.apply_unescaped_reset_if_queued();
        let ghost f0 = self.fed();
        let ghost v0 = self.tok();
        let ghost p0 = self.pending();
        let ghost fin0 = self.finished();
        let ghost mut done: Seq<tokenizer::Event> = Seq::empty();
        proof {
            assert(f0.skip(f0.len() as int) =~= Seq::<u8>::empty());
            assert(f0.take(f0.len() as int) =~= f0);
            assert(event_kinds(Seq::<(tokenizer::Event, usize)>::empty()) =~= Seq::<tokenizer::Event>::empty());
            assert(done + p0 =~= p0 + Seq::<tokenizer::Event>::empty() + Seq::<tokenizer::Event>::empty());
            assert(self.fed().skip(f0.len() as int) =~= Seq::<u8>::empty());
            let evs0 = spec_run(v0, Self::max_depth(), self.fed().skip(f0.len() as int)).events;
            assert(evs0 =~= Seq::<(tokenizer::Event, usize)>::empty());
            assert(last_open(evs0, done.len() - p0.len()) == -1);
            assert(self.text_inv(f0.len() as int, evs0, done.len() - p0.len()));
        }
        loop
            invariant
                self.wf(),
                f0 == old(self).fed(),
                v0 == old(self).tok(),
                p0 == old(self).pending(),
                fin0 == old(self).finished(),
                f0.len() <= self.fed().len(),
                self.fed().take(f0.len() as int) == f0,
                fin0 ==> self.finished(),
                ({
                    let fresh = self.fed().skip(f0.len() as int);
                    let run = spec_run(v0, Self::max_depth(), fresh);
                    let fin = if !fin0 && self.finished() {
                        event_kinds(spec_finish(self.tok()).0)
                    } else {
                        Seq::empty()
                    };
                    &&& run.err is None
                    &&& canon(self.tok()) == canon(run.next)
                    &&& (!fin0 && self.finished() ==> spec_finish(self.tok()).1 is Ok)
                    &&& done + self.pending() == p0 + event_kinds(run.events) + fin
                }),
                none_complete(done),
                self.reader.failed() ==> old(self).reader.failed(),
                p0.len() > 0 && completes(p0[0]) ==> done.len() == 0 && self.fed() == f0 && self.finished() == fin0
                    && self.pending() == p0,
                fin0 ==> self.fed() == f0,
                done.len() < p0.len() ==> spec_run(v0, Self::max_depth(), self.fed().skip(f0.len() as int)).events.len() == 0,
                done.len() >= p0.len() && self.fed().len() <= usize::MAX ==> unhandled_at(
                    spec_run(v0, Self::max_depth(), self.fed().skip(f0.len() as int)).events,
                    done.len() - p0.len(),
                    f0.len() as int,
                    self.fed().len() as int,
                ),
                done.len() - p0.len() <= spec_run(v0, Self::max_depth(), self.fed().skip(f0.len() as int)).events.len()
                    && self.fed().len() <= usize::MAX ==> self.text_inv(
                    f0.len() as int,
                    spec_run(v0, Self::max_depth(), self.fed().skip(f0.len() as int)).events,
                    done.len() - p0.len(),
                ),
            decreases 3 * self.to_come() + self.pending().len(),
        {
            if !have_events(&self.parser_state.evts) {
                let ghost fresh = self.fed().skip(f0.len() as int);
                let ghost run = spec_run(v0, Self::max_depth(), fresh);
                let ghost m: int = done.len() - p0.len();
                let ghost s_before = *self;
                proof {
                    assert(done + Seq::<tokenizer::Event>::empty() =~= done);
                }
                let nb = self.next_byte();
                let ghost s_mid = *self;
                proof {
                    reveal(StreamParser::text_carried);
                    if nb is Ok && m <= run.events.len() {
                        assert(m >= 0);
                    }
                }
                match nb {
                    Err(e) => {
                        proof {
                            let fin = if !fin0 && self.finished() {
                                event_kinds(spec_finish(self.tok()).0)
                            } else {
                                Seq::empty()
                            };
                            let all = p0 + event_kinds(run.events) + fin;
                            assert(all.take(all.len() - self.pending().len()) =~= done);
                            assert(all.skip(all.len() - self.pending().len()) =~= self.pending());
                        }
                        return Err(e);
                    },
                    Ok(Some(byte)) => {
                        let ghost tk = self.tokenizer.view();
                        proof {
                            lemma_feed_byte(v0, tk, Self::max_depth(), fresh, byte);
                            crate::tokenizer_laws::lemma_run_one_len(tk, Self::max_depth(), byte);
                        }
                        let chunk = [byte];
                        proof {
                            assert(chunk@ =~= seq![byte]);
                        }
                        let mut events: Vec<(tokenizer::Event, usize)> = Vec::new();
                        let res = self.tokenizer.parse_chunk(&chunk, &mut events);
                        proof {
                            assert(events@ =~= Seq::<(tokenizer::Event, usize)>::empty() + events@);
                            assert(self.parser_state.evts@ =~= seq![None::<tokenizer::Event>, None::<tokenizer::Event>]);
                        }
                        create_tokenizer_callback(&mut self.parser_state.evts, &events);
                        proof {
                            self.fed@ = self.fed@.push(byte);
                            assert(self.fed().take(f0.len() as int) =~= f0);
                            assert(self.fed().skip(f0.len() as int) =~= fresh.push(byte));
                        }
                        match res {
                            Err(e) => {
                                proof {
                                    let fresh2 = self.fed().skip(f0.len() as int);
                                    let all = p0 + event_kinds(spec_run(v0, Self::max_depth(), fresh2).events)
                                        + Seq::empty();
                                    assert(done + self.pending() =~= all);
                                    assert(all.take(all.len() - self.pending().len()) =~= done);
                                    assert(all.skip(all.len() - self.pending().len()) =~= self.pending());
                                }
                                return Err(ParseError::TokenizerError(e));
                            },
                            Ok(_) => {},
                        }
                        proof {
                            let fresh2 = self.fed().skip(f0.len() as int);
                            assert(done + self.pending() =~= p0 + event_kinds(spec_run(v0, Self::max_depth(), fresh2).events)
                                + Seq::empty());
                        }
                        if !have_events(&self.parser_state.evts) {
                            if let Err(e) = self.handle_byte_accumulation(byte) {
                                proof {
                                    let fresh2 = self.fed().skip(f0.len() as int);
                                    let all = p0 + event_kinds(spec_run(v0, Self::max_depth(), fresh2).events)
                                        + Seq::empty();
                                    assert(all.take(all.len() - self.pending().len()) =~= done);
                                    assert(all.skip(all.len() - self.pending().len()) =~= self.pending());
                                }
                                return Err(e);
                            }
                        }
                        proof {
                          if self.fed().len() <= usize::MAX {
                            crate::tokenizer_laws::lemma_run_push(v0, Self::max_depth(), fresh, byte);
                            let st = spec_step(run.next, Self::max_depth(), byte, fresh.len() as usize);
                            assert(m == run.events.len());
                            assert(s_mid.fed@ == s_before.fed@);
                            assert(self.fed@ =~= s_before.fed@ + seq![byte]);
                            Self::lemma_text_inv_feed(&s_before, &s_mid, &*self, f0.len() as int, run.events, st.events, m, seq![byte]);
                            assert(self.fed().skip(f0.len() as int) =~= fresh.push(byte));
                            let evs2 = spec_run(v0, Self::max_depth(), fresh.push(byte)).events;
                            assert(self.fed().len() == f0.len() + fresh.len() + 1);
                            assert forall|j: int| m <= j < evs2.len() implies (#[trigger] evs2[j]).1 + f0.len() + 1 == self.fed().len() by {
                                assert(run.events.len() <= j);
                            }
                            assert(unhandled_at(evs2, m, f0.len() as int, self.fed().len() as int));
                          }
                        }
                    },
                    Ok(None) => {
                        proof {
                            if m <= run.events.len() && s_before.fed().len() <= usize::MAX {
                                assert(s_before.fed@ + Seq::<u8>::empty() =~= s_before.fed@);
                                Self::lemma_text_inv_feed(&s_before, &s_mid, &s_mid, f0.len() as int, run.events, Seq::empty(), m, Seq::empty());
                                assert(run.events + Seq::<(tokenizer::Event, usize)>::empty() =~= run.events);
                            }
                        }
                        let was_finished = match self.processing_state {
                            ProcessingState::Finished => true,
                            _ => false,
                        };
                        if !was_finished {
                            self.processing_state = ProcessingState::Finished;
                            let mut events: Vec<(tokenizer::Event, usize)> = Vec::new();
                            let res = self.tokenizer.finish(&mut events);
                            proof {
                                assert(events@ =~= Seq::<(tokenizer::Event, usize)>::empty() + events@);
                                assert(self.parser_state.evts@ =~= seq![None::<tokenizer::Event>, None::<tokenizer::Event>]);
                                assert(spec_finish(self.tok()).0.len() <= 1);
                            }
                            create_tokenizer_callback(&mut self.parser_state.evts, &events);
                            match res {
                                Err(e) => {
                                    proof {
                                        let all = p0 + event_kinds(run.events) + event_kinds(spec_finish(self.tok()).0);
                                        assert(done + self.pending() =~= all);
                                        assert(all.take(all.len() - self.pending().len()) =~= done);
                                        assert(all.skip(all.len() - self.pending().len()) =~= self.pending());
                                    }
                                    return Err(ParseError::TokenizerError(e));
                                },
                                Ok(_) => {},
                            }
                            proof {
                                assert(done + self.pending() =~= p0 + event_kinds(run.events) + event_kinds(
                                    spec_finish(self.tok()).0,
                                ));
                            }
                        }
                        if !have_events(&self.parser_state.evts) {
                            proof {
                                let fin = if !fin0 && self.finished() {
                                    event_kinds(spec_finish(self.tok()).0)
                                } else {
                                    Seq::empty()
                                };
                                let all = p0 + event_kinds(run.events) + fin;
                                assert(all.take(all.len() - self.pending().len()) =~= done);
                                assert(all.skip(all.len() - self.pending().len()) =~= self.pending());
                            }
                            return Ok(Event::EndDocument);
                        }
                    },
                }
            } else {
                let ghost pend = self.pending();
                let taken = take_first_event(&mut self.parser_state.evts);
                let t = match taken {
                    Some(t) => t,
                    None => return Err(ParseError::Unexpected(UnexpectedState::StateMismatch)),
                };
                let ghost fresh = self.fed().skip(f0.len() as int);
                let ghost fin = if !fin0 && self.finished() {
                    event_kinds(spec_finish(self.tok()).0)
                } else {
                    Seq::empty()
                };
                let ghost all = p0 + event_kinds(spec_run(v0, Self::max_depth(), fresh).events) + fin;
                let ghost evs = spec_run(v0, Self::max_depth(), fresh).events;
                let ghost m: int = done.len() - p0.len();
                let ghost c0 = *self;
                proof {
                    if m >= 0 && m < evs.len() && c0.fed().len() <= usize::MAX {
                        assert((done + pend)[done.len() as int] == pend[0]);
                        assert((p0 + event_kinds(evs) + fin)[done.len() as int] == event_kinds(evs)[m]);
                        assert(t == evs[m].0);
                        assert(self.fed().len() == f0.len() + evs[m].1 + 1);
                    }
                }
                proof {
                    assert(done.push(t) + self.pending() =~= done + pend);
                    done = done.push(t);
                    assert(all.take(all.len() - self.pending().len()) =~= done);
                    assert(all.skip(all.len() - self.pending().len()) =~= self.pending());
                    assert(done.drop_last() =~= done.take(done.len() - 1));
                    assert(done.last() == t);
                }
                match process_simple_events(&t) {
                    Some(EventResult::Complete(ev)) => {
                        return Ok(ev);
                    },
                    Some(EventResult::ExtractString) => {
                        let r = self.extract_content(false);
                        proof {
                            assert(t == tokenizer::Event::End(EventToken::String));
                            if m >= 0 && m < evs.len() && c0.fed().len() <= usize::MAX {
                                if r is Ok {
                                    Self::lemma_text_at_end(&c0, f0.len() as int, evs, m, r->Ok_0);
                                }
                            }
                        }
                        return r;
                    },
                    Some(EventResult::ExtractKey) => {
                        let r = self.extract_content(true);
                        proof {
                            assert(t == tokenizer::Event::End(EventToken::Key));
                            if m >= 0 && m < evs.len() && c0.fed().len() <= usize::MAX {
                                if r is Ok {
                                    Self::lemma_text_at_end(&c0, f0.len() as int, evs, m, r->Ok_0);
                                }
                            }
                        }
                        return r;
                    },
                    Some(EventResult::ExtractNumber(from_container_end)) => {
                        let r = self.extract_number(from_container_end);
                        proof {
                            assert(t == tokenizer::Event::End(EventToken::Number) || t == tokenizer::Event::End(
                                EventToken::NumberAndArray,
                            ) || t == tokenizer::Event::End(EventToken::NumberAndObject));
                        }
                        return r;
                    },
                    Some(EventResult::Continue) => {},
                    None => {
                        let rr = self.process_other_event(t);
                        if let Err(e) = rr {
                            return Err(e);
                        }
                        proof {
                            if m >= 0 && m < evs.len() && c0.fed().len() <= usize::MAX {
                                Self::lemma_text_inv_step(&c0, &*self, f0.len() as int, evs, m, rr);
                            }
                            if m < 0 {
                                assert(last_open(evs, m + 1) == -1);
                            }
                        }
                    },
                }
                proof {
                    assert forall|i: int| 0 <= i < done.len() implies !completes(#[trigger] done[i]) by {
                        if i < done.len() - 1 {
                            assert(done[i] == done.drop_last()[i]);
                        }
                    }
                }
            }
        }
    }

    /// Iterator-like method: `None` once the document has ended, else the
    /// result of [`StreamParser::next_event`].
    pub fn next(&mut self) -> (r: Option<Result<Event<'_, '_>, ParseError>>)
        requires
            old(self).wf(),
        ensures
            match r {
                None => Self::spec_next_event(old(self), final(self), Ok(Event::EndDocument)),
                Some(x) => Self::spec_next_event(old(self), final(self), x) && !(x matches Ok(Event::EndDocument)),
            },
    {
        match self.next_event() {
            Ok(Event::EndDocument) => None,
            other => Some(other),
        }
    }

    /// Whether tokenizer events are waiting to be handled.
    pub fn have_events(&self) -> (r: bool)
        ensures
            r == (self.pending().len() > 0),
    {
        have_events(&self.parser_state.evts)
    }
}

} // verus!

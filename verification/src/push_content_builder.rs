//! Content handling for the push parser: content that lies within one
//! chunk is borrowed from it; content that spans chunks, or has escapes, is
//! accumulated in a scratch buffer.

use vstd::prelude::*;
use vstd::utf8::valid_utf8;
use vstd::string::StringSliceAdditionalSpecFns;

use crate::escape_processor::{
    spec_escape_char, spec_escape_token_result, spec_feed_hex, spec_unicode_escape, EscapeProcessor,
    UnicodeEscapeCollector,
};
use crate::json_number::JsonNumber;
use crate::json_string::String;
use crate::parse_error::{ParseError, UnexpectedState};
use crate::json_number::spec_number_result;
use crate::shared::{content_bounds, event_record, get_content_piece, sat_sub, ContentRange, DataSource, Event, EventTag, State};
use crate::stream_buffer::StreamBuffer;
use crate::tokenizer::{self, EventToken};

verus! {

/// Receives the events of the push parser.
///
/// A handler keeps the kind of the last event it was handed (see
/// [`Event::tag`]), whatever it answers: that is how the parser's contracts
/// say what the handler received.
pub trait PushParserHandler<'input, 'scratch, E> {
    /// The kind of the last event handed to the handler, if any.
    spec fn last_event_kind(&self) -> Option<EventTag>;

    /// Handles one event; an error stops the parser.
    fn handle_event(&mut self, event: Event<'input, 'scratch>) -> (r: Result<(), E>)
        ensures
            final(self).last_event_kind() == Some(event_record(event).0),
    ;
}

/// The segment start that marks an escape in progress.
pub const SEG_IN_ESCAPE: usize = usize::MAX;

/// Content handling state of the push parser, kept across chunks.
pub struct PushContentBuilder<'scratch> {
    stream_buffer: StreamBuffer<'scratch>,
    parser_state: State,
    unicode_escape_collector: UnicodeEscapeCollector,
    unescaped_reset_queued: bool,
    position_offset: usize,
    current_position: usize,
    scratch_mode: bool,
    seg_start: usize,
    unicode_hex_start: Option<usize>,
}

impl<'scratch> PushContentBuilder<'scratch> {
    /// The content in progress.
    pub closed spec fn state(&self) -> State {
        self.parser_state
    }

    /// Where the current chunk starts in the whole input.
    pub closed spec fn offset(&self) -> usize {
        self.position_offset
    }

    /// The position of the event being handled.
    pub closed spec fn position(&self) -> usize {
        self.current_position
    }

    /// Whether the current content is accumulated in the scratch buffer.
    pub closed spec fn in_scratch(&self) -> bool {
        self.scratch_mode
    }

    /// Whether a reset of the scratch content waits for the next chunk or
    /// event.
    pub closed spec fn reset_queued(&self) -> bool {
        self.unescaped_reset_queued
    }

    /// The positions it holds leave room for one more byte.
    pub closed spec fn wf(&self) -> bool {
        &&& self.current_position < usize::MAX
        &&& match self.parser_state {
            State::Key(p) | State::String(p) | State::Number(p) => p < usize::MAX,
            State::Empty => true,
        }
    }

    /// The scratch buffer's unescaped content, when there is some to hand
    /// out.
    pub closed spec fn scratch_content(&self) -> Option<Seq<u8>> {
        if 0 < self.stream_buffer.unescaped_len <= self.stream_buffer.data().len() {
            Some(self.unescaped())
        } else {
            None
        }
    }

    /// Whether a `\\uXXXX` escape waits for the low half of a surrogate pair.
    pub closed spec fn pending_surrogate(&self) -> bool {
        self.unicode_escape_collector.pending() is Some
    }

    /// The scratch buffer's unescaped content as the buffer hands it out:
    /// an error when it is empty or longer than the buffer.
    pub closed spec fn scratch_result(&self) -> Result<Seq<u8>, ParseError> {
        if self.stream_buffer.unescaped_len == 0 {
            Err(ParseError::Unexpected(UnexpectedState::InvalidSliceBounds))
        } else if self.stream_buffer.unescaped_len > self.stream_buffer.data().len() {
            Err(ParseError::Unexpected(UnexpectedState::BufferCapacityExceeded))
        } else {
            Ok(self.unescaped())
        }
    }

    /// Where the content not yet copied to the scratch buffer starts
    /// ([`SEG_IN_ESCAPE`] inside an escape).
    pub closed spec fn seg(&self) -> usize {
        self.seg_start
    }

    /// Where the digits of the `\\uXXXX` escape in progress start, if one is.
    pub closed spec fn hex_start(&self) -> Option<usize> {
        self.unicode_hex_start
    }

    /// The hex digits of the `\\uXXXX` escape collected so far.
    pub closed spec fn digits(&self) -> Seq<u8> {
        self.unicode_escape_collector.digits()
    }

    /// The high surrogate waiting for its low half, if any.
    pub closed spec fn pending(&self) -> Option<u32> {
        self.unicode_escape_collector.pending()
    }

    /// Whether `self` has `o`'s scratch buffer, as it was.
    pub closed spec fn same_scratch(&self, o: &Self) -> bool {
        self.stream_buffer == o.stream_buffer
    }

    /// The scratch buffer's length.
    pub closed spec fn cap(&self) -> nat {
        self.stream_buffer.data().len()
    }

    /// The length of the unescaped content.
    pub closed spec fn ul(&self) -> usize {
        self.stream_buffer.unescaped_len
    }

    /// Whether `n` more bytes fit after the unescaped content.
    pub closed spec fn fits(&self, n: nat) -> bool {
        self.stream_buffer.unescaped_len + n <= self.stream_buffer.data().len()
    }

    /// The scratch buffer's unescaped content.
    pub closed spec fn unescaped(&self) -> Seq<u8> {
        self.stream_buffer.data().take(self.stream_buffer.unescaped_len as int)
    }

    /// Create a new content builder over `buffer`.
    pub fn new(buffer: &'scratch mut [u8]) -> (r: Self)
        ensures
            r.wf(),
            r.state() == State::Empty,
            r.offset() == 0,
            r.position() == 0,
            !r.in_scratch(),
            !r.reset_queued(),
            r.unescaped().len() == 0,
    {
        Self {
            stream_buffer: StreamBuffer::new(buffer),
            parser_state: State::Empty,
            unicode_escape_collector: UnicodeEscapeCollector::new(),
            unescaped_reset_queued: false,
            position_offset: 0,
            current_position: 0,
            scratch_mode: false,
            seg_start: 0,
            unicode_hex_start: None,
        }
    }

    /// The content in progress.
    pub fn parser_state(&self) -> (r: &State)
        ensures
            *r == self.state(),
    {
        &self.parser_state
    }

    /// Moves the start of the current chunk on by `amount` bytes.
    pub fn add_position_offset(&mut self, amount: usize)
        requires
            old(self).offset() + amount <= usize::MAX,
        ensures
            final(self).offset() == old(self).offset() + amount,
            final(self).wf() == old(self).wf(),
            final(self).state() == old(self).state(),
            final(self).position() == old(self).position(),
            final(self).in_scratch() == old(self).in_scratch(),
            final(self).reset_queued() == old(self).reset_queued(),
            final(self).unescaped() == old(self).unescaped(),
            final(self).seg() == old(self).seg(),
            final(self).hex_start() == old(self).hex_start(),
    {
        self.position_offset = self.position_offset + amount;
    }

    /// Clears the scratch content if a reset was queued.
    pub fn apply_unescaped_reset_if_queued(&mut self)
        ensures
            final(self).offset() == old(self).offset(),
            final(self).state() == old(self).state(),
            final(self).position() == old(self).position(),
            !final(self).reset_queued(),
            final(self).wf() == old(self).wf(),
            final(self).seg() == old(self).seg(),
            final(self).digits() == old(self).digits(),
            final(self).pending() == old(self).pending(),
            final(self).hex_start() == old(self).hex_start(),
            old(self).reset_queued() ==> !final(self).in_scratch() && final(self).unescaped().len() == 0,
            !old(self).reset_queued() ==> final(self).in_scratch() == old(self).in_scratch() && final(self).unescaped()
                == old(self).unescaped(),
    {
        if self.unescaped_reset_queued {
            self.unescaped_reset_queued = false;
            self.scratch_mode = false;
            self.stream_buffer.clear_unescaped();
            proof {
                assert(self.unescaped() =~= Seq::<u8>::empty());
            }
        }
    }

    /// Queue a reset of the scratch content.
    fn queue_unescaped_reset(&mut self)
        ensures
            *final(self) == (PushContentBuilder { unescaped_reset_queued: true, ..*old(self) }),
    {
        self.unescaped_reset_queued = true;
    }

    /// Whether the current content is accumulated in the scratch buffer.
    fn has_unescaped_content(&self) -> (r: bool)
        ensures
            r == self.in_scratch(),
    {
        self.scratch_mode
    }
}

/// A view of the content builder over one chunk of input.
pub(crate) struct PushChunkExtractor<'a, 'chunk, 'scratch> {
    pub(crate) builder: &'a mut PushContentBuilder<'scratch>,
    pub(crate) chunk: &'chunk [u8],
}

impl<'a, 'chunk, 'scratch> PushChunkExtractor<'a, 'chunk, 'scratch> {
    /// The content builder.
    pub(crate) open spec fn content(&self) -> PushContentBuilder<'scratch> {
        *self.builder
    }

    /// The chunk.
    pub(crate) open spec fn bytes(&self) -> Seq<u8> {
        self.chunk@
    }

    /// Positions in the chunk fit in a `usize`, with room for one more.
    pub(crate) open spec fn wf(&self) -> bool {
        &&& self.builder.offset() + self.chunk@.len() < usize::MAX
        &&& self.builder.wf()
    }

    /// `f` differs from `o` at most in the content state, over the same
    /// chunk, still well formed.
    pub(crate) open spec fn kept(f: &Self, o: &Self) -> bool {
        &&& f.wf()
        &&& f.bytes() == o.bytes()
        &&& f.content().offset() == o.content().offset()
        &&& f.content().position() == o.content().position()
    }

    /// The chunk's bytes between absolute positions `start` and `end`
    /// (positions before the chunk count as its start); `None` when the
    /// range is not within the chunk.
    pub(crate) open spec fn chunk_range(&self, start: usize, end: usize) -> Option<Seq<u8>> {
        let lo = sat_sub(start, self.content().offset());
        let hi = sat_sub(end, self.content().offset());
        if hi > self.bytes().len() || lo > hi {
            None
        } else {
            Some(self.bytes().subrange(lo as int, hi as int))
        }
    }

    /// The bytes of content that began at `start` (its opening quote, or
    /// the byte before a number) and ends at the current event: the scratch
    /// buffer's content when it lies there, else the chunk's bytes.
    pub(crate) open spec fn content_bytes(&self, start: usize) -> Option<Seq<u8>> {
        if self.content().in_scratch() {
            self.content().scratch_content()
        } else {
            let b = content_bounds((start + 1) as usize, (self.content().position() + 1) as usize);
            self.chunk_range(b.0, b.1)
        }
    }

    /// The text of the content that began at `start` (its opening quote, or
    /// the byte before a number) when it ends just before `pos`: in scratch
    /// mode, the unescaped content followed by the chunk's bytes not yet
    /// copied (when they fit and the whole is not empty); else the chunk's
    /// bytes of the content. `None` when it cannot be had.
    pub(crate) open spec fn ending_text(&self, start: usize, pos: usize) -> Option<Seq<u8>> {
        if self.content().in_scratch() {
            let seg = self.content().seg();
            let pend = if seg != SEG_IN_ESCAPE && seg < pos {
                self.chunk_range(seg, pos)
            } else {
                Some(Seq::<u8>::empty())
            };
            match pend {
                Some(b) => if self.content().fits(b.len()) && self.content().ul() + b.len() > 0 {
                    Some(self.content().unescaped() + b)
                } else {
                    None
                },
                None => None,
            }
        } else {
            let bnd = content_bounds((start + 1) as usize, (pos + 1) as usize);
            self.chunk_range(bnd.0, bnd.1)
        }
    }

    /// `s` is the content that began at `start`: borrowed from the chunk, or
    /// unescaped in the scratch buffer.
    pub(crate) open spec fn string_text_ok(&self, start: usize, s: String) -> bool {
        match s {
            String::Borrowed(t) => !self.content().in_scratch() && self.content_bytes(start) == Some(t.spec_bytes()),
            String::Unescaped(t) => self.content().in_scratch() && self.content_bytes(start) == Some(t.spec_bytes()),
        }
    }

    /// `f` and `o` agree on the escape in progress: its digits, the waiting
    /// high surrogate and where its digits start.
    pub(crate) open spec fn escape_same(f: &Self, o: &Self) -> bool {
        &&& f.content().digits() == o.content().digits()
        &&& f.content().pending() == o.content().pending()
        &&& f.content().hex_start() == o.content().hex_start()
    }

    /// Copying the chunk's content from the segment start up to `upto` to
    /// the scratch buffer, from `o` to `f`, returning `r`: outside an escape
    /// and with bytes pending, those bytes (the chunk's, from the segment
    /// start, or the chunk's start) follow the unescaped content, which then
    /// runs up to `upto`; out of the chunk or out of room, it fails with the
    /// content kept; otherwise nothing changes.
    pub(crate) open spec fn pending_appended(f: &Self, o: &Self, upto: usize, r: Result<(), ParseError>) -> bool {
        let seg = o.content().seg();
        &&& Self::text_appended(f, o, upto, r)
        &&& f.content().seg() == if seg != SEG_IN_ESCAPE && seg < upto && r is Ok {
            upto
        } else {
            seg
        }
    }

    /// What [`PushChunkExtractor::pending_appended`] does to the unescaped
    /// content, and returns.
    pub(crate) open spec fn text_appended(f: &Self, o: &Self, upto: usize, r: Result<(), ParseError>) -> bool {
        let seg = o.content().seg();
        &&& f.content().cap() == o.content().cap()
        &&& if seg != SEG_IN_ESCAPE && seg < upto {
            match o.chunk_range(seg, upto) {
                None => r == Err::<(), ParseError>(ParseError::Unexpected(UnexpectedState::InvalidSliceBounds))
                    && f.content().unescaped() == o.content().unescaped() && f.content().ul() == o.content().ul(),
                Some(b) => if o.content().fits(b.len()) {
                    r is Ok && f.content().unescaped() == o.content().unescaped() + b && f.content().ul() == o.content().ul()
                        + b.len()
                } else {
                    r == Err::<(), ParseError>(ParseError::ScratchBufferFull) && f.content().unescaped()
                        == o.content().unescaped() && f.content().ul() == o.content().ul()
                },
            }
        } else {
            r is Ok && f.content().unescaped() == o.content().unescaped() && f.content().ul() == o.content().ul()
        }
    }

    /// Feeding the chunk's hex digits from `from` (or the chunk's start) up
    /// to `upto` to the collector, from `o` to `f`, returning `r`: out of
    /// the chunk it fails with nothing fed; otherwise the digits are fed one
    /// by one until one fails (see [`spec_feed_hex`]).
    pub(crate) open spec fn hex_fed(f: &Self, o: &Self, from: usize, upto: usize, r: Result<(), ParseError>) -> bool {
        let from2 = if from >= o.content().offset() {
            from
        } else {
            o.content().offset()
        };
        &&& f.content().pending() == o.content().pending()
        &&& match o.chunk_range(from2, upto) {
            None => r == Err::<(), ParseError>(ParseError::Unexpected(UnexpectedState::InvalidSliceBounds))
                && f.content().digits() == o.content().digits(),
            Some(h) => {
                let fed = spec_feed_hex(o.content().digits(), h);
                &&& f.content().digits() == fed.0
                &&& match fed.1 {
                    Some(e) => r == Err::<(), ParseError>(e),
                    None => r is Ok,
                }
            },
        }
    }

    /// Completing the `\\uXXXX` escape whose last digit is at the current
    /// event, from `o` to `f`, returning `r`: with no escape in progress it
    /// is a state mismatch; otherwise the escape ends, its digits in this
    /// chunk are fed (see [`PushChunkExtractor::hex_fed`]), and the four
    /// digits give UTF-8 bytes that follow the unescaped content (none while
    /// a high surrogate waits), the collector keeping the high surrogate that
    /// then waits; the content not yet copied resumes after the escape.
    /// Each step can fail, leaving the unescaped content as it was.
    pub(crate) open spec fn unicode_completed(f: &Self, o: &Self, r: Result<(), ParseError>) -> bool {
        let end = o.content().position();
        let kept_text = f.content().unescaped() == o.content().unescaped();
        match o.content().hex_start() {
            None => r == Err::<(), ParseError>(ParseError::Unexpected(UnexpectedState::StateMismatch)) && kept_text
                && f.content().seg() == o.content().seg() && Self::escape_same(f, o),
            Some(h) => {
                let from2 = if h >= o.content().offset() {
                    h
                } else {
                    o.content().offset()
                };
                &&& f.content().hex_start() is None
                &&& match o.chunk_range(from2, (end + 1) as usize) {
                    None => r == Err::<(), ParseError>(
                        ParseError::Unexpected(UnexpectedState::InvalidSliceBounds),
                    ) && kept_text,
                    Some(hx) => {
                        let fed = spec_feed_hex(o.content().digits(), hx);
                        &&& f.content().digits() == fed.0
                        &&& match fed.1 {
                            Some(e) => r == Err::<(), ParseError>(e) && kept_text,
                            None => if fed.0.len() != 4 {
                                r == Err::<(), ParseError>(
                                    ParseError::Unexpected(UnexpectedState::InvalidUnicodeEscape),
                                ) && kept_text
                            } else {
                                match spec_unicode_escape(fed.0, o.content().pending()) {
                                    Err(e) => r == Err::<(), ParseError>(e) && kept_text,
                                    Ok((bytes, p)) => f.content().pending() == p && match bytes {
                                        None => r is Ok && kept_text && f.content().seg() == end + 1,
                                        Some(b) => if o.content().fits(b.len()) {
                                            r is Ok && f.content().unescaped() == o.content().unescaped() + b
                                                && f.content().seg() == end + 1
                                        } else {
                                            r == Err::<(), ParseError>(ParseError::ScratchBufferFull) && kept_text
                                        },
                                    },
                                }
                            },
                        }
                    },
                }
            },
        }
    }

    /// A view over `chunk`.
    pub(crate) fn new(builder: &'a mut PushContentBuilder<'scratch>, chunk: &'chunk [u8]) -> (r: Self)
        ensures
            r.content() == *old(builder),
            r.bytes() == chunk@,
            *final(builder) == *final(r.builder),
    {
        Self { builder, chunk }
    }

    /// The events that follow are at `rel_pos` in the chunk.
    pub(crate) fn set_event_position(&mut self, rel_pos: usize)
        requires
            old(self).wf(),
            rel_pos < old(self).bytes().len(),
        ensures
            final(self).wf(),
            final(self).bytes() == old(self).bytes(),
            *final(final(self).builder) == *final(old(self).builder),
            final(self).content().position() == old(self).content().offset() + rel_pos,
            final(self).content().offset() == old(self).content().offset(),
            final(self).content().state() == old(self).content().state(),
            final(self).content().in_scratch() == old(self).content().in_scratch(),
            final(self).content().reset_queued() == old(self).content().reset_queued(),
            final(self).content().unescaped() == old(self).content().unescaped(),
            Self::escape_same(final(self), old(self)),
            final(self).content().pending_surrogate() == old(self).content().pending_surrogate(),
            final(self).content().seg() == old(self).content().seg(),
            final(self).content().ul() == old(self).content().ul(),
            final(self).content().cap() == old(self).content().cap(),
            forall|p: usize, q: usize| #[trigger] final(self).ending_text(p, q) == old(self).ending_text(p, q),
    {
        self.builder.current_position = self.builder.position_offset + rel_pos;
    }

    /// Clears the scratch content if a reset was queued.
    pub(crate) fn apply_unescaped_reset_if_queued(&mut self)
        requires
            old(self).wf(),
        ensures
            Self::kept(final(self), old(self)),
            *final(final(self).builder) == *final(old(self).builder),
            final(self).content().state() == old(self).content().state(),
            !final(self).content().reset_queued(),
            final(self).content().seg() == old(self).content().seg(),
            Self::escape_same(final(self), old(self)),
            old(self).content().reset_queued() ==> !final(self).content().in_scratch()
                && final(self).content().unescaped().len() == 0,
            !old(self).content().reset_queued() ==> final(self).content().in_scratch() == old(self).content().in_scratch() && final(self).content().unescaped() == old(self).content().unescaped(),
    {
        self.builder.apply_unescaped_reset_if_queued();
    }

    /// A number begins at `first_byte_pos`: its bytes are borrowed until the
    /// chunk ends.
    pub(crate) fn begin_number_span(&mut self, first_byte_pos: usize)
        requires
            old(self).wf(),
        ensures
            Self::kept(final(self), old(self)),
            *final(final(self).builder) == *final(old(self).builder),
            final(self).content().state() == old(self).content().state(),
            !final(self).content().in_scratch(),
            final(self).content().seg() == first_byte_pos,
            final(self).content().hex_start() is None,
    {
        self.builder.scratch_mode = false;
        self.builder.seg_start = first_byte_pos;
        self.builder.unicode_hex_start = None;
    }

    /// The chunk's bytes between absolute positions `start_abs` and
    /// `end_abs` (positions before the chunk count as its start).
    fn chunk_span(&self, start_abs: usize, end_abs: usize) -> (r: Result<&'chunk [u8], ParseError>)
        ensures
            match self.chunk_range(start_abs, end_abs) {
                None => r == Err::<&[u8], ParseError>(ParseError::Unexpected(UnexpectedState::InvalidSliceBounds)),
                Some(b) => r matches Ok(s) && s@ == b,
            },
    {
        let lo = start_abs.saturating_sub(self.builder.position_offset);
        let hi = end_abs.saturating_sub(self.builder.position_offset);
        if hi > self.chunk.len() || lo > hi {
            return Err(ParseError::Unexpected(UnexpectedState::InvalidSliceBounds));
        }
        Ok(vstd::slice::slice_subrange(self.chunk, lo, hi))
    }

    /// Moves the borrowed bytes of the content, from the segment start up to
    /// `upto_abs`, to the scratch buffer.
    fn append_pending(&mut self, upto_abs: usize) -> (r: Result<(), ParseError>)
        requires
            old(self).wf(),
        ensures
            Self::kept(final(self), old(self)),
            *final(final(self).builder) == *final(old(self).builder),
            final(self).content().state() == old(self).content().state(),
            final(self).content().in_scratch() == old(self).content().in_scratch(),
            final(self).content().reset_queued() == old(self).content().reset_queued(),
            Self::escape_same(final(self), old(self)),
            Self::pending_appended(final(self), old(self), upto_abs, r),
            r matches Err(e) ==> !(e is TokenizerError),
    {
        let seg = self.builder.seg_start;
        if seg != SEG_IN_ESCAPE && seg < upto_abs {
            let span = match self.chunk_span(seg, upto_abs) {
                Ok(s) => s,
                Err(e) => return Err(e),
            };
            let ghost before = self.builder.stream_buffer;
            match self.builder.stream_buffer.append_unescaped_slice(span) {
                Ok(()) => {},
                Err(e) => return Err(ParseError::from(e)),
            }
            proof {
                assert(self.builder.unescaped() =~= old(self).content().unescaped() + span@);
            }
            self.builder.seg_start = upto_abs;
        }
        Ok(())
    }

    /// Feeds the hex digits of a `\uXXXX` escape that lie in this chunk,
    /// from `from_abs` up to `upto_abs`, to the escape collector.
    fn feed_hex_span(&mut self, from_abs: usize, upto_abs: usize) -> (r: Result<(), ParseError>)
        requires
            old(self).wf(),
        ensures
            Self::kept(final(self), old(self)),
            *final(final(self).builder) == *final(old(self).builder),
            final(self).content().state() == old(self).content().state(),
            final(self).content().in_scratch() == old(self).content().in_scratch(),
            final(self).content().reset_queued() == old(self).content().reset_queued(),
            final(self).content().unescaped() == old(self).content().unescaped(),
            final(self).content().seg() == old(self).content().seg(),
            final(self).content().hex_start() == old(self).content().hex_start(),
            final(self).content().same_scratch(&old(self).content()),
            Self::hex_fed(final(self), old(self), from_abs, upto_abs, r),
            r matches Err(e) ==> !(e is TokenizerError),
    {
        let from = if from_abs >= self.builder.position_offset {
            from_abs
        } else {
            self.builder.position_offset
        };
        let span = match self.chunk_span(from, upto_abs) {
            Ok(s) => s,
            Err(e) => return Err(e),
        };
        let mut i: usize = 0;
        proof {
            assert(span@.skip(0) =~= span@);
        }
        while i < span.len()
            invariant
                Self::kept(self, old(self)),
                *final(self.builder) == *final(old(self).builder),
                self.content().state() == old(self).content().state(),
                self.content().in_scratch() == old(self).content().in_scratch(),
                self.content().reset_queued() == old(self).content().reset_queued(),
                self.content().unescaped() == old(self).content().unescaped(),
                self.content().seg() == old(self).content().seg(),
                self.content().hex_start() == old(self).content().hex_start(),
                self.content().same_scratch(&old(self).content()),
                self.content().pending() == old(self).content().pending(),
                i <= span@.len(),
                old(self).chunk_range(from, upto_abs) == Some(span@),
                from == (if from_abs >= old(self).content().offset() {
                    from_abs
                } else {
                    old(self).content().offset()
                }),
                spec_feed_hex(self.content().digits(), span@.skip(i as int)) == spec_feed_hex(
                    old(self).content().digits(),
                    span@,
                ),
            decreases span@.len() - i,
        {
            let ghost d = self.content().digits();
            proof {
                assert(span@.skip(i as int).drop_first() =~= span@.skip(i + 1));
                assert(span@.skip(i as int)[0] == span[i as int]);
            }
            let added = self.builder.unicode_escape_collector.add_hex_digit(span[i]);
            if let Err(e) = added {
                proof {
                    let t = span@.skip(i as int);
                    assert(t.len() > 0);
                    assert(spec_feed_hex(d, t) == (d, Some(e)));
                }
                return Err(e);
            }
            i = i + 1;
        }
        proof {
            assert(span@.skip(i as int) =~= Seq::<u8>::empty());
        }
        Ok(())
    }

    /// Completes a `\uXXXX` escape ending at the current event: its UTF-8
    /// encoding goes to the scratch buffer (a high surrogate waits).
    fn complete_unicode_escape(&mut self) -> (r: Result<(), ParseError>)
        requires
            old(self).wf(),
        ensures
            Self::kept(final(self), old(self)),
            *final(final(self).builder) == *final(old(self).builder),
            final(self).content().state() == old(self).content().state(),
            final(self).content().in_scratch() == old(self).content().in_scratch(),
            final(self).content().reset_queued() == old(self).content().reset_queued(),
            Self::unicode_completed(final(self), old(self), r),
            r matches Err(e) ==> !(e is TokenizerError),
    {
        let end_pos = self.builder.current_position;
        let hex_start = match self.builder.unicode_hex_start {
            Some(h) => h,
            None => return Err(ParseError::Unexpected(UnexpectedState::StateMismatch)),
        };
        self.builder.unicode_hex_start = None;
        if let Err(e) = self.feed_hex_span(hex_start, end_pos + 1) {
            return Err(e);
        }
        let mut utf8_buffer = [0u8; 4];
        let (utf8_bytes_opt, _surrogate_state_changed) = match self.builder.unicode_escape_collector.process_to_utf8(
            &mut utf8_buffer,
        ) {
            Ok(v) => v,
            Err(e) => return Err(e),
        };
        if let Some(utf8_bytes) = utf8_bytes_opt {
            match self.builder.stream_buffer.append_unescaped_slice(utf8_bytes) {
                Ok(()) => {},
                Err(e) => return Err(ParseError::from(e)),
            }
            proof {
                assert(self.builder.unescaped() =~= old(self).content().unescaped() + utf8_bytes@);
            }
        }
        self.builder.seg_start = end_pos + 1;
        Ok(())
    }

    /// At the end of a chunk, content in progress that was borrowed from
    /// the chunk moves to the scratch buffer (hex digits of an escape go to
    /// the collector).
    pub(crate) fn chunk_end_flush(&mut self) -> (r: Result<(), ParseError>)
        requires
            old(self).wf(),
        ensures
            Self::kept(final(self), old(self)),
            *final(final(self).builder) == *final(old(self).builder),
            final(self).content().state() == old(self).content().state(),
            old(self).content().state() == State::Empty ==> r is Ok,
            final(self).content().reset_queued() == old(self).content().reset_queued(),
            ({
                let ce = (old(self).content().offset() + old(self).bytes().len()) as usize;
                let seg = old(self).content().seg();
                let unchanged = final(self).content().unescaped() == old(self).content().unescaped()
                    && final(self).content().seg() == seg && final(self).content().in_scratch() == old(self).content().in_scratch() && Self::escape_same(final(self), old(self));
                if old(self).content().state() == State::Empty {
                    unchanged
                } else {
                    match old(self).content().hex_start() {
                        Some(h) => Self::hex_fed(final(self), old(self), h, ce, r) && final(self).content().unescaped()
                            == old(self).content().unescaped() && final(self).content().seg() == seg
                            && final(self).content().in_scratch() == old(self).content().in_scratch()
                            && final(self).content().hex_start() == Some(h),
                        None => if seg == SEG_IN_ESCAPE || seg >= ce {
                            r is Ok && unchanged
                        } else {
                            final(self).content().in_scratch() && Self::escape_same(final(self), old(self))
                                && Self::pending_appended(final(self), old(self), ce, r)
                        },
                    }
                }
            }),
            r matches Err(e) ==> !(e is TokenizerError),
    {
        if let State::Empty = self.builder.parser_state {
            return Ok(());
        }
        let chunk_end_abs = self.builder.position_offset + self.chunk.len();
        if let Some(hex_start) = self.builder.unicode_hex_start {
            return self.feed_hex_span(hex_start, chunk_end_abs);
        }
        if self.builder.seg_start == SEG_IN_ESCAPE {
            return Ok(());
        }
        if self.builder.seg_start < chunk_end_abs {
            self.builder.scratch_mode = true;
            return self.append_pending(chunk_end_abs);
        }
        Ok(())
    }

    /// The position of the event being handled.
    pub(crate) fn current_position(&self) -> (r: usize)
        ensures
            r == self.content().position(),
    {
        self.builder.current_position
    }

    /// A string or key begins at `pos` (its opening quote).
    fn begin_string_content(&mut self, pos: usize)
        requires
            old(self).wf(),
            pos < usize::MAX,
        ensures
            Self::kept(final(self), old(self)),
            *final(final(self).builder) == *final(old(self).builder),
            final(self).content().state() == old(self).content().state(),
            !final(self).content().in_scratch(),
            final(self).content().seg() == pos + 1,
            final(self).content().hex_start() is None,
    {
        self.builder.stream_buffer.clear_unescaped();
        self.builder.scratch_mode = false;
        self.builder.seg_start = pos + 1;
        self.builder.unicode_hex_start = None;
    }

    /// Ends the current string (`key`: the current key) and returns it; a
    /// high surrogate still waiting for its pair is an error.
    pub(crate) fn extract_content(&mut self, key: bool) -> (r: Result<Event<'_, '_>, ParseError>)
        requires
            old(self).wf(),
        ensures
            Self::kept(final(self), old(self)),
            *final(final(self).builder) == *final(old(self).builder),
            !(match old(self).content().state() {
                State::Key(_) => key,
                State::String(_) => !key,
                _ => false,
            }) ==> r == Err::<Event, ParseError>(ParseError::Unexpected(UnexpectedState::StateMismatch)),
            (match old(self).content().state() {
                State::Key(_) => key,
                State::String(_) => !key,
                _ => false,
            }) && old(self).content().pending_surrogate() ==> r == Err::<Event, ParseError>(
                ParseError::InvalidUnicodeCodepoint,
            ),
            r matches Ok(ev) ==> match old(self).content().state() {
                State::Key(p) => ev matches Event::Key(s) && final(self).string_text_ok(p, s),
                State::String(p) => ev matches Event::String(s) && final(self).string_text_ok(p, s),
                _ => false,
            },
            r is Ok ==> final(self).content().state() == State::Empty && !old(self).content().pending_surrogate(),
            r is Ok <==> match old(self).content().state() {
                State::Key(p) if key => !old(self).content().pending_surrogate() && (old(self).ending_text(
                    p,
                    old(self).content().position(),
                ) matches Some(t) && valid_utf8(t)),
                State::String(p) if !key => !old(self).content().pending_surrogate() && (old(self).ending_text(
                    p,
                    old(self).content().position(),
                ) matches Some(t) && valid_utf8(t)),
                _ => false,
            },
            r matches Ok(ev) ==> match old(self).content().state() {
                State::Key(p) => ev matches Event::Key(s) && old(self).ending_text(p, old(self).content().position())
                    == Some(s.text_bytes()) && (s is Unescaped <==> old(self).content().in_scratch()),
                State::String(p) => ev matches Event::String(s) && old(self).ending_text(
                    p,
                    old(self).content().position(),
                ) == Some(s.text_bytes()) && (s is Unescaped <==> old(self).content().in_scratch()),
                _ => false,
            },
            r matches Err(e) ==> !(e is TokenizerError),
    {
        let start_pos = match self.builder.parser_state {
            State::Key(p) => if key {
                p
            } else {
                return Err(ParseError::Unexpected(UnexpectedState::StateMismatch));
            },
            State::String(p) => if !key {
                p
            } else {
                return Err(ParseError::Unexpected(UnexpectedState::StateMismatch));
            },
            _ => return Err(ParseError::Unexpected(UnexpectedState::StateMismatch)),
        };
        if self.builder.unicode_escape_collector.has_pending_high_surrogate() {
            return Err(ParseError::InvalidUnicodeCodepoint);
        }
        self.builder.parser_state = State::Empty;
        if self.builder.scratch_mode {
            let upto = self.builder.current_position;
            if let Err(e) = self.append_pending(upto) {
                return Err(e);
            }
            self.builder.queue_unescaped_reset();
        }
        let end = self.builder.current_position + 1;
        proof {
            let o = old(self);
            let pos = o.content().position();
            if o.content().in_scratch() {
                assert(self.content().scratch_result() is Ok <==> o.ending_text(start_pos, pos) is Some);
                if self.content().scratch_result() is Ok {
                    assert(o.ending_text(start_pos, pos) == Some(self.content().unescaped()));
                }
            } else {
                let bnd = content_bounds((start_pos + 1) as usize, end);
                assert(self.chunk_range(bnd.0, bnd.1) == o.ending_text(start_pos, pos));
            }
        }
        let piece = match get_content_piece(&*self, start_pos + 1, end) {
            Ok(p) => p,
            Err(e) => return Err(e),
        };
        match piece.into_string() {
            Ok(s) => if key {
                Ok(Event::Key(s))
            } else {
                Ok(Event::String(s))
            },
            Err(e) => Err(e),
        }
    }

    /// Ends the current number, just before the delimiter at the current
    /// event, and returns it.
    pub(crate) fn extract_number(&mut self) -> (r: Result<Event<'_, '_>, ParseError>)
        requires
            old(self).wf(),
        ensures
            Self::kept(final(self), old(self)),
            *final(final(self).builder) == *final(old(self).builder),
            !(old(self).content().state() is Number) ==> r == Err::<Event, ParseError>(
                ParseError::Unexpected(UnexpectedState::StateMismatch),
            ),
            r matches Ok(ev) ==> match old(self).content().state() {
                State::Number(p) => ev matches Event::Number(JsonNumber::Borrowed { raw, parsed })
                    && parsed == spec_number_result(raw.spec_bytes())
                    && final(self).content_bytes(p) == Some(raw.spec_bytes()),
                _ => false,
            },
            r is Ok ==> final(self).content().state() == State::Empty,
            r is Ok <==> match old(self).content().state() {
                State::Number(p) => old(self).ending_text(p, old(self).content().position()) matches Some(t)
                    && valid_utf8(t),
                _ => false,
            },
            r matches Ok(ev) ==> match old(self).content().state() {
                State::Number(p) => ev matches Event::Number(JsonNumber::Borrowed { raw, .. }) && old(self).ending_text(
                    p,
                    old(self).content().position(),
                ) == Some(raw.spec_bytes()),
                _ => false,
            },
            r matches Err(e) ==> !(e is TokenizerError),
    {
        let start_pos = match self.builder.parser_state {
            State::Number(p) => p,
            _ => return Err(ParseError::Unexpected(UnexpectedState::StateMismatch)),
        };
        self.builder.parser_state = State::Empty;
        if self.builder.scratch_mode {
            let upto = self.builder.current_position;
            if let Err(e) = self.append_pending(upto) {
                return Err(e);
            }
            self.builder.queue_unescaped_reset();
        }
        let end = self.builder.current_position + 1;
        proof {
            let o = old(self);
            let pos = o.content().position();
            if o.content().in_scratch() {
                assert(self.content().scratch_result() is Ok <==> o.ending_text(start_pos, pos) is Some);
                if self.content().scratch_result() is Ok {
                    assert(o.ending_text(start_pos, pos) == Some(self.content().unescaped()));
                }
            } else {
                let bnd = content_bounds((start_pos + 1) as usize, end);
                assert(self.chunk_range(bnd.0, bnd.1) == o.ending_text(start_pos, pos));
            }
        }
        let piece = match get_content_piece(&*self, start_pos + 1, end) {
            Ok(p) => p,
            Err(e) => return Err(e),
        };
        let number_bytes = piece.as_bytes();
        match JsonNumber::from_slice(number_bytes) {
            Ok(n) => Ok(Event::Number(n)),
            Err(e) => Err(e),
        }
    }

    /// At the start of an escape: the content so far moves to the scratch
    /// buffer, which holds the rest of it.
    fn begin_escape_sequence(&mut self) -> (r: Result<(), ParseError>)
        requires
            old(self).wf(),
        ensures
            Self::kept(final(self), old(self)),
            *final(final(self).builder) == *final(old(self).builder),
            final(self).content().state() == old(self).content().state(),
            final(self).content().reset_queued() == old(self).content().reset_queued(),
            Self::escape_same(final(self), old(self)),
            Self::text_appended(final(self), old(self), old(self).content().position(), r),
            r is Ok ==> final(self).content().in_scratch() && final(self).content().seg() == SEG_IN_ESCAPE,
            r is Err ==> final(self).content().in_scratch() == old(self).content().in_scratch(),
            r matches Err(e) ==> !(e is TokenizerError),
    {
        let upto = self.builder.current_position;
        if let Err(e) = self.append_pending(upto) {
            return Err(e);
        }
        self.builder.scratch_mode = true;
        self.builder.seg_start = SEG_IN_ESCAPE;
        Ok(())
    }

    /// A simple escape's character goes to the scratch buffer.
    fn handle_simple_escape_char(&mut self, escape_char: u8) -> (r: Result<(), ParseError>)
        requires
            old(self).wf(),
        ensures
            Self::kept(final(self), old(self)),
            *final(final(self).builder) == *final(old(self).builder),
            final(self).content().state() == old(self).content().state(),
            final(self).content().reset_queued() == old(self).content().reset_queued(),
            final(self).content().in_scratch() == old(self).content().in_scratch(),
            Self::escape_same(final(self), old(self)),
            if !old(self).content().in_scratch() {
                r == Err::<(), ParseError>(ParseError::Unexpected(UnexpectedState::StateMismatch))
                    && final(self).content().unescaped() == old(self).content().unescaped()
                    && final(self).content().seg() == old(self).content().seg()
            } else if old(self).content().fits(1) {
                r is Ok && final(self).content().unescaped() == old(self).content().unescaped().push(escape_char)
                    && final(self).content().seg() == old(self).content().position() + 1
            } else {
                r == Err::<(), ParseError>(ParseError::ScratchBufferFull) && final(self).content().unescaped()
                    == old(self).content().unescaped() && final(self).content().seg() == old(self).content().seg()
            },
            r matches Err(e) ==> !(e is TokenizerError),
    {
        if !self.builder.scratch_mode {
            return Err(ParseError::Unexpected(UnexpectedState::StateMismatch));
        }
        match self.builder.stream_buffer.append_unescaped_byte(escape_char) {
            Ok(()) => {},
            Err(e) => return Err(ParseError::from(e)),
        }
        proof {
            assert(self.builder.unescaped() =~= old(self).content().unescaped().push(escape_char));
        }
        self.builder.seg_start = self.builder.current_position + 1;
        Ok(())
    }

    /// Handles a tokenizer event that does not complete a parser event.
    pub(crate) fn process_other_event(&mut self, event: tokenizer::Event) -> (r: Result<(), ParseError>)
        requires
            old(self).wf(),
        ensures
            Self::kept(final(self), old(self)),
            *final(final(self).builder) == *final(old(self).builder),
            event matches tokenizer::Event::Begin(EventToken::Key) ==> r is Ok && final(self).content().state()
                == State::Key(old(self).content().position()),
            (event matches tokenizer::Event::Begin(EventToken::Key) || event matches tokenizer::Event::Begin(
                EventToken::String,
            )) ==> final(self).content().seg() == old(self).content().position() + 1
                && final(self).content().hex_start() is None,
            (event matches tokenizer::Event::Begin(EventToken::Number) || event matches tokenizer::Event::Begin(
                EventToken::NumberAndArray,
            ) || event matches tokenizer::Event::Begin(EventToken::NumberAndObject)) ==> final(self).content().seg()
                == old(self).content().position() && final(self).content().hex_start() is None,
            (event matches tokenizer::Event::Begin(EventToken::True) || event matches tokenizer::Event::Begin(
                EventToken::False,
            ) || event matches tokenizer::Event::Begin(EventToken::Null)) ==> r is Ok && final(self).content().state()
                == old(self).content().state() && final(self).content().seg() == old(self).content().seg()
                && final(self).content().hex_start() == old(self).content().hex_start(),
            event matches tokenizer::Event::Begin(EventToken::String) ==> r is Ok && final(self).content().state()
                == State::String(old(self).content().position()),
            (event matches tokenizer::Event::Begin(EventToken::Number) || event matches tokenizer::Event::Begin(
                EventToken::NumberAndArray,
            ) || event matches tokenizer::Event::Begin(EventToken::NumberAndObject)) ==> r is Ok
                && final(self).content().state() == State::Number(sat_sub(old(self).content().position(), 1)),
            ({
                let in_string = old(self).content().state() is String || old(self).content().state() is Key;
                match event {
                    tokenizer::Event::End(t) => spec_escape_char(t) is Some && in_string ==> {
                        &&& r is Ok ==> final(self).content().unescaped() == old(self).content().unescaped().push(
                            spec_escape_token_result(t)->Ok_0,
                        )
                        &&& old(self).content().in_scratch() && old(self).content().fits(1) ==> r is Ok
                    },
                    _ => true,
                }
            }),
            r matches Err(e) ==> !(e is TokenizerError),
    {
        let in_string = match self.builder.parser_state {
            State::String(_) | State::Key(_) => true,
            _ => false,
        };
        match event {
            tokenizer::Event::Begin(EventToken::Key) => {
                let pos = self.builder.current_position;
                self.builder.parser_state = State::Key(pos);
                self.begin_string_content(pos);
                Ok(())
            },
            tokenizer::Event::Begin(EventToken::String) => {
                let pos = self.builder.current_position;
                self.builder.parser_state = State::String(pos);
                self.begin_string_content(pos);
                Ok(())
            },
            tokenizer::Event::Begin(EventToken::Number)
            | tokenizer::Event::Begin(EventToken::NumberAndArray)
            | tokenizer::Event::Begin(EventToken::NumberAndObject) => {
                let pos = self.builder.current_position;
                self.builder.parser_state = State::Number(ContentRange::number_start_from_current(pos));
                self.begin_number_span(pos);
                Ok(())
            },
            tokenizer::Event::Begin(EventToken::EscapeSequence) => {
                if in_string {
                    self.begin_escape_sequence()
                } else {
                    Ok(())
                }
            },
            tokenizer::Event::Begin(EventToken::UnicodeEscape) => {
                if in_string {
                    self.builder.unicode_escape_collector.reset();
                    self.builder.unicode_hex_start = Some(self.builder.current_position);
                }
                Ok(())
            },
            tokenizer::Event::End(EventToken::UnicodeEscape) => {
                if in_string {
                    self.complete_unicode_escape()
                } else {
                    Ok(())
                }
            },
            tokenizer::Event::End(EventToken::EscapeQuote)
            | tokenizer::Event::End(EventToken::EscapeBackslash)
            | tokenizer::Event::End(EventToken::EscapeSlash)
            | tokenizer::Event::End(EventToken::EscapeBackspace)
            | tokenizer::Event::End(EventToken::EscapeFormFeed)
            | tokenizer::Event::End(EventToken::EscapeNewline)
            | tokenizer::Event::End(EventToken::EscapeCarriageReturn)
            | tokenizer::Event::End(EventToken::EscapeTab) => {
                self.builder.unicode_escape_collector.reset_all();
                let token = match event {
                    tokenizer::Event::End(t) => t,
                    _ => EventToken::EscapeQuote,
                };
                let unescaped_char = match EscapeProcessor::process_escape_token(&token) {
                    Ok(c) => c,
                    Err(e) => return Err(e),
                };
                if in_string {
                    self.handle_simple_escape_char(unescaped_char)
                } else {
                    Ok(())
                }
            },
            _ => Ok(()),
        }
    }
}

impl<'i, 's, 'a, 'chunk, 'scratch> DataSource<'i, 's> for PushChunkExtractor<'a, 'chunk, 'scratch> {
    closed spec fn borrowed(&self, start: usize, end: usize) -> Result<Seq<u8>, ParseError> {
        match self.chunk_range(start, end) {
            Some(b) => Ok(b),
            None => Err(ParseError::Unexpected(UnexpectedState::InvalidSliceBounds)),
        }
    }

    closed spec fn unescaped_content(&self) -> Result<Seq<u8>, ParseError> {
        self.content().scratch_result()
    }

    closed spec fn holds_unescaped(&self) -> bool {
        self.content().in_scratch()
    }

    fn get_borrowed_slice(&'i self, start: usize, end: usize) -> (r: Result<&'i [u8], ParseError>) {
        let slice_start = start.saturating_sub(self.builder.position_offset);
        let slice_end = end.saturating_sub(self.builder.position_offset);
        if slice_end > self.chunk.len() || slice_start > slice_end {
            return Err(ParseError::Unexpected(UnexpectedState::InvalidSliceBounds));
        }
        Ok(vstd::slice::slice_subrange(self.chunk, slice_start, slice_end))
    }

    fn get_unescaped_slice(&'s self) -> (r: Result<&'s [u8], ParseError>) {
        match self.builder.stream_buffer.get_unescaped_slice() {
            Ok(s) => Ok(s),
            Err(e) => Err(ParseError::from(e)),
        }
    }

    fn has_unescaped_content(&self) -> (r: bool) {
        self.builder.has_unescaped_content()
    }
}

} // verus!

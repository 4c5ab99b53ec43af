//! The slice parser: a pull parser over a byte slice or string, which
//! borrows strings from the input when they have no escapes and unescapes
//! the others into a scratch buffer.

use vstd::prelude::*;
use vstd::string::StringSliceAdditionalSpecFns;

use crate::bitstack::{BitBucket, BitStackConfig, DefaultConfig, DepthCounter};
use crate::event_processor::{
    create_tokenizer_callback, have_events, pending_events, process_simple_events, spec_simple_event,
    take_first_event, EventResult, ParserCore,
};
use crate::json_number::{spec_number_result, JsonNumber};
use crate::parse_error::{ParseError, UnexpectedState};
use crate::pull_parser::{
    completes, copy_span, escape_between, escape_event, escaped_text, last_number_open, last_open,
    lemma_escaped_text_prefix, lemma_last_number_open_prefix, lemma_last_open_prefix, no_unicode_between, none_complete,
    number_from_run, opens_number, opens_text, text_from_run, unhandled_at,
};
use crate::shared::{sat_sub, Event, State};
use crate::slice_content_builder::SliceContentBuilder;
use crate::tokenizer::{self, initial_view, spec_finish, spec_run, spec_step, wrap_add, EventToken, TokView};
use crate::tokenizer_laws::{canon, event_kinds, lemma_feed_byte, strip_err};

verus! {

/// What the content handling holds of the key or string in progress, after
/// the first `m` of the events `evs` (the events of the input from `base`
/// on): if a key or string opened among them and is still being read, it
/// starts just after its opening quote; its text went to the scratch buffer
/// only if an escape came since; and while it has not, the only escapes were
/// `\\uXXXX` ones leaving a high surrogate waiting.
spec fn text_inv(c: SliceContentBuilder, base: int, evs: Seq<(tokenizer::Event, usize)>, m: int) -> bool {
    let b = last_open(evs, m);
    m >= 0 && b >= 0 && (c.state() is String || c.state() is Key) ==> {
        &&& c.string_start() == base + evs[b].1 + 1
        &&& c.escaped() ==> escape_between(evs, b, m)
        &&& !c.escaped() ==> forall|j: int|
            b < j < m && escape_event(#[trigger] evs[j].0) ==> evs[j].0 == tokenizer::Event::End(EventToken::UnicodeEscape)
        &&& !c.escaped() && escape_between(evs, b, m) ==> c.surrogate_pending()
        &&& no_unicode_between(evs, b, m) ==> {
            let et = escaped_text(c.data(), base, evs, b, m);
            &&& c.copied_to() == et.1
            &&& c.escaped() ==> c.scratch_from() <= c.scratch_to() <= c.scratch().len() && c.scratch_text() == et.0
            &&& !c.escaped() ==> c.scratch_to() == c.scratch_from() && et.0 == Seq::<u8>::empty()
        }
    }
}

/// Adding events after the first `m` changes nothing of what holds of them.
proof fn lemma_text_inv_extend(
    c: SliceContentBuilder,
    base: int,
    evs: Seq<(tokenizer::Event, usize)>,
    more: Seq<(tokenizer::Event, usize)>,
    m: int,
)
    requires
        0 <= m <= evs.len(),
        text_inv(c, base, evs, m),
    ensures
        text_inv(c, base, evs + more, m),
{
    lemma_last_open_prefix(evs, more, m);
    let e2 = evs + more;
    let b = last_open(evs, m);
    if b >= 0 && (c.state() is String || c.state() is Key) {
        assert(e2[b] == evs[b]);
        assert(escape_between(e2, b, m) == escape_between(evs, b, m)) by {
            if escape_between(evs, b, m) {
                let j = choose|j: int| b < j < m && escape_event(#[trigger] evs[j].0);
                assert(e2[j] == evs[j]);
            }
            if escape_between(e2, b, m) {
                let j = choose|j: int| b < j < m && escape_event(#[trigger] e2[j].0);
                assert(e2[j] == evs[j]);
            }
        }
        assert forall|j: int| b < j < m && escape_event(#[trigger] e2[j].0) implies (!c.escaped() ==> e2[j].0
            == tokenizer::Event::End(EventToken::UnicodeEscape)) by {
            assert(e2[j] == evs[j]);
        }
        lemma_escaped_text_prefix(c.data(), base, evs, more, b, m);
        assert(no_unicode_between(e2, b, m) == no_unicode_between(evs, b, m)) by {
            if !no_unicode_between(evs, b, m) {
                let j = choose|j: int| b < j < m && !((#[trigger] evs[j]).0 != tokenizer::Event::End(EventToken::UnicodeEscape));
                assert(e2[j] == evs[j]);
            }
            if !no_unicode_between(e2, b, m) {
                let j = choose|j: int| b < j < m && !((#[trigger] e2[j]).0 != tokenizer::Event::End(EventToken::UnicodeEscape));
                assert(e2[j] == evs[j]);
            }
        }
    }
}

/// Handling the event at index `m` keeps what holds of the text in progress.
proof fn lemma_text_inv_step(
    o: SliceContentBuilder,
    f: SliceContentBuilder,
    base: int,
    evs: Seq<(tokenizer::Event, usize)>,
    m: int,
    r: Result<(), ParseError>,
)
    requires
        0 <= m < evs.len(),
        text_inv(o, base, evs, m),
        o.pos() == base + evs[m].1 + 1,
        SliceContentBuilder::text_tracked(&f, &o, evs[m].0, r),
        r is Ok,
        f.data() == o.data(),
    ensures
        text_inv(f, base, evs, m + 1),
{
    let t = evs[m].0;
    lemma_last_open_prefix(evs, Seq::empty(), m);
    let b = last_open(evs, m + 1);
    if opens_text(t) {
        assert(b == m);
        assert(!escape_between(evs, m, m + 1));
        assert(escaped_text(f.data(), base, evs, m, m + 1) == (Seq::<u8>::empty(), base + evs[m].1 + 1));
    } else {
        assert(b == last_open(evs, m));
        if b >= 0 && (f.state() is String || f.state() is Key) {
            let nu = no_unicode_between(evs, b, m + 1);
            if nu {
                assert(no_unicode_between(evs, b, m));
            }
            if escape_event(t) {
                assert(escape_between(evs, b, m + 1)) by {
                    assert(b < m && m < m + 1 && escape_event(evs[m].0));
                }
                if nu {
                    assert(evs[m].0 != tokenizer::Event::End(EventToken::UnicodeEscape));
                    assert(sat_sub(o.pos(), 2) == base + evs[m].1 - 1 || (o.pos() < 2 && copy_span(
                        o.data(),
                        o.copied_to() as int,
                        sat_sub(o.pos(), 2) as int,
                    ) == copy_span(o.data(), o.copied_to() as int, base + evs[m].1 - 1)));
                    if !o.escaped() {
                        o.lemma_no_scratch_text();
                    }
                }
            } else {
                assert(escape_between(evs, b, m + 1) == escape_between(evs, b, m)) by {
                    if escape_between(evs, b, m + 1) {
                        let j = choose|j: int| b < j < m + 1 && escape_event(#[trigger] evs[j].0);
                        assert(j != m);
                    }
                }
            }
        }
    }
}

/// What the content handling holds of the number in progress, after the
/// first `m` of the events `evs` (those of the input from `base` on): if a
/// number opened among them and is still being read, it starts at the byte
/// that opened it.
spec fn num_inv(c: SliceContentBuilder, base: int, evs: Seq<(tokenizer::Event, usize)>, m: int) -> bool {
    let b = last_number_open(evs, m);
    0 <= m <= evs.len() && b >= 0 ==> match c.state() {
        State::Number(p) => p == base + evs[b].1,
        _ => true,
    }
}

/// Adding events after the first `m` changes nothing of what holds of the
/// number in progress.
proof fn lemma_num_inv_extend(
    c: SliceContentBuilder,
    base: int,
    evs: Seq<(tokenizer::Event, usize)>,
    more: Seq<(tokenizer::Event, usize)>,
    m: int,
)
    requires
        0 <= m <= evs.len(),
        num_inv(c, base, evs, m),
    ensures
        num_inv(c, base, evs + more, m),
{
    lemma_last_number_open_prefix(evs, more, m);
    let b = last_number_open(evs, m);
    if b >= 0 {
        assert((evs + more)[b] == evs[b]);
    }
}

/// Handling the event at index `m` keeps what holds of the number in
/// progress.
proof fn lemma_num_inv_step(
    o: SliceContentBuilder,
    f: SliceContentBuilder,
    base: int,
    evs: Seq<(tokenizer::Event, usize)>,
    m: int,
    r: Result<(), ParseError>,
)
    requires
        0 <= m < evs.len(),
        base >= 0,
        num_inv(o, base, evs, m),
        o.pos() == base + evs[m].1 + 1,
        SliceContentBuilder::text_tracked(&f, &o, evs[m].0, r),
    ensures
        num_inv(f, base, evs, m + 1),
{
    lemma_last_number_open_prefix(evs, Seq::empty(), m);
    if opens_number(evs[m].0) {
        assert(last_number_open(evs, m + 1) == m);
    } else {
        assert(last_number_open(evs, m + 1) == last_number_open(evs, m));
    }
}

/// A key or string ended by the event at index `m` has the text that
/// [`text_from_run`] gives, whatever the content handling after it, as long
/// as it kept the string's start and gave back the text it holds.
proof fn lemma_text_at_end(c0: SliceContentBuilder, base: int, evs: Seq<(tokenizer::Event, usize)>, m: int)
    requires
        0 <= m < evs.len(),
        base >= 0,
        text_inv(c0, base, evs, m),
        c0.pos() == base + evs[m].1 + 1,
    ensures
        forall|f: SliceContentBuilder, s: crate::json_string::String|
            (c0.state() is String || c0.state() is Key) && !c0.surrogate_pending() && f.string_start()
                == c0.string_start() && f.pos() == c0.pos() && f.data() == c0.data() && #[trigger] f.string_text_ok(s)
                && (s is Unescaped) == c0.escaped() && (s is Unescaped && c0.scratch_from() <= c0.scratch_to()
                <= c0.scratch().len() ==> f.scratch_text() == c0.scratch_text() + copy_span(
                c0.data(),
                c0.copied_to() as int,
                sat_sub(c0.pos(), 1) as int,
            )) ==> text_from_run(f.data(), base, evs, m, s),
{
    let b = last_open(evs, m);
    assert forall|f: SliceContentBuilder, s: crate::json_string::String|
        (c0.state() is String || c0.state() is Key) && !c0.surrogate_pending() && f.string_start() == c0.string_start()
            && f.pos() == c0.pos() && f.data() == c0.data() && #[trigger] f.string_text_ok(s) && (s is Unescaped)
            == c0.escaped() && (s is Unescaped && c0.scratch_from() <= c0.scratch_to() <= c0.scratch().len()
            ==> f.scratch_text() == c0.scratch_text() + copy_span(
            c0.data(),
            c0.copied_to() as int,
            sat_sub(c0.pos(), 1) as int,
        )) implies text_from_run(f.data(), base, evs, m, s) by {
        if b >= 0 {
            assert(c0.string_start() == base + evs[b].1 + 1);
            assert(sat_sub(c0.pos(), 1) == base + evs[m].1);
            if !c0.escaped() {
                assert(!escape_between(evs, b, m));
            }
            match s {
                crate::json_string::String::Borrowed(t) => {
                    assert(t.spec_bytes() == f.data().subrange(f.string_start() as int, sat_sub(f.pos(), 1) as int));
                },
                crate::json_string::String::Unescaped(t) => {},
            }
        }
    }
}

/// A pull parser over a byte slice. Lifetime 'a is the input buffer
/// lifetime, 'b the scratch buffer lifetime.
pub struct SliceParser<'a, 'b, C: BitStackConfig = DefaultConfig> {
    parser_core: ParserCore<C::Bucket, C::Counter>,
    content_builder: SliceContentBuilder<'a, 'b>,
}

impl<'a> SliceParser<'a, '_, DefaultConfig> {
    /// Creates a new parser for the given JSON input, without a scratch
    /// buffer: a string with escapes then fails with `ScratchBufferFull`.
    pub fn new(input: &'a str) -> (r: Self)
        requires
            input.spec_bytes().len() < usize::MAX,
        ensures
            r.wf(),
            r.input() == input.spec_bytes(),
            r.pos() == 0,
            r.tok() == initial_view(u32::capacity()),
            r.pending().len() == 0,
    {
        Self::new_from_slice(input.as_bytes())
    }

    /// Creates a new parser from a byte slice, without a scratch buffer.
    pub fn new_from_slice(input: &'a [u8]) -> (r: Self)
        requires
            input@.len() < usize::MAX,
        ensures
            r.wf(),
            r.input() == input@,
            r.pos() == 0,
            r.tok() == initial_view(u32::capacity()),
            r.pending().len() == 0,
    {
        Self::with_config_from_slice(input)
    }
}

impl<'a, 'b> SliceParser<'a, 'b, DefaultConfig> {
    /// Creates a new parser for the given JSON input with a scratch buffer
    /// for unescaping strings.
    pub fn with_buffer(input: &'a str, scratch_buffer: &'b mut [u8]) -> (r: Self)
        requires
            input.spec_bytes().len() < usize::MAX,
        ensures
            r.wf(),
            r.input() == input.spec_bytes(),
            r.pos() == 0,
            r.tok() == initial_view(u32::capacity()),
            r.pending().len() == 0,
    {
        Self::with_buffer_from_slice(input.as_bytes(), scratch_buffer)
    }

    /// Creates a new parser from a byte slice with a scratch buffer.
    pub fn with_buffer_from_slice(input: &'a [u8], scratch_buffer: &'b mut [u8]) -> (r: Self)
        requires
            input@.len() < usize::MAX,
        ensures
            r.wf(),
            r.input() == input@,
            r.pos() == 0,
            r.tok() == initial_view(u32::capacity()),
            r.pending().len() == 0,
    {
        Self::with_config_and_buffer_from_slice(input, scratch_buffer)
    }
}

impl<'a, 'b, C: BitStackConfig> SliceParser<'a, 'b, C> {
    /// The input.
    pub closed spec fn input(&self) -> Seq<u8> {
        self.content_builder.data()
    }

    /// The position of the next input byte (one past the end once the end
    /// has been reached).
    pub closed spec fn pos(&self) -> usize {
        self.content_builder.pos()
    }

    /// The tokenizer.
    pub closed spec fn tok(&self) -> TokView {
        self.parser_core.tokenizer.view()
    }

    /// Tokenizer events received and not yet handled.
    pub closed spec fn pending(&self) -> Seq<tokenizer::Event> {
        pending_events(self.parser_core.parser_state.evts)
    }

    /// The parser's content handling.
    pub closed spec fn content(&self) -> SliceContentBuilder<'a, 'b> {
        self.content_builder
    }

    /// The parts of the parser agree.
    pub closed spec fn wf(&self) -> bool {
        &&& self.content_builder.wf()
        &&& !self.parser_core.handles_chunked_input
    }

    /// The largest nesting depth.
    pub open spec fn max_depth() -> nat {
        C::Counter::max_count()
    }

    /// What a returned event says of the tokenizer event that completed it
    /// (and of the parser right after).
    pub open spec fn event_for(&self, ev: Event, last: tokenizer::Event) -> bool {
        match ev {
            Event::Key(s) => last == tokenizer::Event::End(EventToken::Key) && self.content().string_text_ok(s),
            Event::String(s) => last == tokenizer::Event::End(EventToken::String) && self.content().string_text_ok(s),
            Event::Number(n) => {
                let end = sat_sub(self.pos(), 1);
                &&& spec_simple_event(last) matches Some(EventResult::ExtractNumber(_))
                &&& n matches JsonNumber::Borrowed { raw, parsed }
                &&& parsed == spec_number_result(raw.spec_bytes())
                &&& raw.spec_bytes().len() <= end
                &&& raw.spec_bytes() == self.input().subrange(end - raw.spec_bytes().len(), end as int)
            },
            _ => spec_simple_event(last) == Some(EventResult::Complete(ev)),
        }
    }

    /// What one call of [`SliceParser::next_event`] does, from parser `o` to
    /// parser `f`, returning `r`. Past the end it returns `EndDocument` and
    /// changes nothing. Otherwise it feeds the input bytes one at a time to
    /// the tokenizer (and finishes the document at the end of the input),
    /// and handles the tokenizer's events in order, the pending ones first,
    /// until one completes a parser event, which it returns; the events not
    /// yet handled stay pending. It returns `EndDocument` once the input is
    /// exhausted with no event left, and the tokenizer's error when there is
    /// one. Any other error comes from handling the last event taken, as
    /// [`SliceContentBuilder::failed_on`] says of the parser right after.
    /// When the first pending event completes a parser event, no input is
    /// read: that event alone is handled.
    pub open spec fn spec_next_event(o: &Self, f: &Self, r: Result<Event, ParseError>) -> bool {
        let len = o.input().len();
        &&& f.wf()
        &&& f.input() == o.input()
        &&& o.pos() > len ==> r == Ok::<Event, ParseError>(Event::EndDocument) && f.pos() == o.pos() && f.tok()
            == o.tok() && f.pending() == o.pending()
        &&& o.pos() <= len ==> {
            let stop: int = if f.pos() > len {
                len as int
            } else {
                f.pos() as int
            };
            let fed = o.input().subrange(o.pos() as int, stop);
            let run = spec_run(o.tok(), Self::max_depth(), fed);
            let all = o.pending() + event_kinds(run.events) + if f.pos() > len {
                event_kinds(spec_finish(f.tok()).0)
            } else {
                Seq::empty()
            };
            let done = all.take(all.len() - f.pending().len());
            &&& o.pos() <= f.pos() <= len + 1
            &&& canon(f.tok()) == canon(run.next)
            &&& run.err is None ==> f.tok().total == wrap_add(o.tok().total, fed.len())
            &&& f.pending().len() <= all.len()
            &&& f.pending() == all.skip(all.len() - f.pending().len())
            &&& o.pending().len() > 0 && completes(o.pending()[0]) ==> f.pos() == o.pos() && done.len() == 1
            &&& match r {
                Ok(Event::EndDocument) => f.pos() > len && run.err is None && spec_finish(f.tok()).1 is Ok
                    && none_complete(done) && f.pending().len() == 0,
                Err(ParseError::TokenizerError(e)) => none_complete(done) && match run.err {
                    Some(e2) => strip_err(e) == strip_err(e2),
                    None => f.pos() > len && spec_finish(f.tok()).1 == Err::<usize, tokenizer::Error>(e),
                },
                Ok(ev) => run.err is None && done.len() > 0 && none_complete(done.drop_last()) && f.event_for(
                    ev,
                    done.last(),
                ) && match ev {
                    Event::Key(s) | Event::String(s) => text_from_run(
                        o.input(),
                        o.pos() as int,
                        run.events,
                        done.len() - 1 - o.pending().len(),
                        s,
                    ),
                    Event::Number(JsonNumber::Borrowed { raw, .. }) => number_from_run(
                        o.input(),
                        o.pos() as int,
                        run.events,
                        done.len() - 1 - o.pending().len(),
                        sat_sub(f.pos(), 1) as int,
                        raw.spec_bytes(),
                    ),
                    _ => true,
                },
                Err(e) => run.err is None && done.len() > 0 && none_complete(done.drop_last())
                    && f.content().failed_on(done.last(), e),
            }
        }
    }

    /// The events the tokenizer raised on the bytes read by a call of
    /// [`SliceParser::next_event`] from `o` to `f`, positions counted from
    /// where the call started reading.
    pub open spec fn call_events(o: &Self, f: &Self) -> Seq<(tokenizer::Event, usize)> {
        let len = o.input().len();
        let stop: int = if f.pos() > len {
            len as int
        } else {
            f.pos() as int
        };
        spec_run(o.tok(), Self::max_depth(), o.input().subrange(o.pos() as int, stop)).events
    }

    /// The index, among [`SliceParser::call_events`], of the event that
    /// completed what a call from `o` to `f` returned (the length of those
    /// events for one raised at the end of the input).
    pub open spec fn returned_index(o: &Self, f: &Self) -> int {
        let len = o.input().len();
        let all = o.pending() + event_kinds(Self::call_events(o, f)) + if f.pos() > len {
            event_kinds(spec_finish(f.tok()).0)
        } else {
            Seq::empty()
        };
        all.len() - f.pending().len() - 1 - o.pending().len()
    }

    /// A number that [`SliceParser::next_event`] returns, when it began
    /// during the call, is the input from the byte on which the tokenizer
    /// raised its opening (with no other number opened since) up to just
    /// before the byte that ended it, or to the end of the input; and its
    /// value is that text's. No sign or digit of it is left out.
    pub proof fn law_number_text(o: &Self, f: &Self, r: Result<Event, ParseError>)
        requires
            Self::spec_next_event(o, f, r),
            o.pos() <= o.input().len(),
        ensures
            ({
                let evs = Self::call_events(o, f);
                let k = Self::returned_index(o, f);
                let b = last_number_open(evs, k);
                match r {
                    Ok(Event::Number(JsonNumber::Borrowed { raw, parsed })) => 0 <= k <= evs.len() && b >= 0 ==> {
                        &&& opens_number(evs[b].0)
                        &&& forall|j: int| b < j < k ==> !opens_number(#[trigger] evs[j].0)
                        &&& raw.spec_bytes() == o.input().subrange(o.pos() + evs[b].1, sat_sub(f.pos(), 1) as int)
                        &&& parsed == spec_number_result(raw.spec_bytes())
                    },
                    _ => true,
                }
            }),
    {
        let evs = Self::call_events(o, f);
        let k = Self::returned_index(o, f);
        if 0 <= k <= evs.len() {
            lemma_last_number_open_prefix(evs, Seq::empty(), k);
        }
    }

    /// Creates a new parser with a custom `BitStackConfig`, without a
    /// scratch buffer.
    pub fn with_config(input: &'a str) -> (r: Self)
        requires
            input.spec_bytes().len() < usize::MAX,
        ensures
            r.wf(),
            r.input() == input.spec_bytes(),
            r.pos() == 0,
            r.tok() == initial_view(C::Bucket::capacity()),
            r.pending().len() == 0,
    {
        Self::with_config_from_slice(input.as_bytes())
    }

    /// Creates a new parser from a byte slice with a custom `BitStackConfig`,
    /// without a scratch buffer.
    pub fn with_config_from_slice(input: &'a [u8]) -> (r: Self)
        requires
            input@.len() < usize::MAX,
        ensures
            r.wf(),
            r.input() == input@,
            r.pos() == 0,
            r.tok() == initial_view(C::Bucket::capacity()),
            r.pending().len() == 0,
    {
        let empty: &'b mut [u8] = &mut [];
        Self::with_config_and_buffer_from_slice(input, empty)
    }

    /// Creates a new parser with a custom `BitStackConfig` and a scratch
    /// buffer.
    pub fn with_config_and_buffer(input: &'a str, scratch_buffer: &'b mut [u8]) -> (r: Self)
        requires
            input.spec_bytes().len() < usize::MAX,
        ensures
            r.wf(),
            r.input() == input.spec_bytes(),
            r.pos() == 0,
            r.tok() == initial_view(C::Bucket::capacity()),
            r.pending().len() == 0,
    {
        Self::with_config_and_buffer_from_slice(input.as_bytes(), scratch_buffer)
    }

    /// Creates a new parser from a byte slice with a custom `BitStackConfig`
    /// and a scratch buffer.
    pub fn with_config_and_buffer_from_slice(input: &'a [u8], scratch_buffer: &'b mut [u8]) -> (r: Self)
        requires
            input@.len() < usize::MAX,
        ensures
            r.wf(),
            r.input() == input@,
            r.pos() == 0,
            r.tok() == initial_view(C::Bucket::capacity()),
            r.pending().len() == 0,
    {
        SliceParser { parser_core: ParserCore::new(), content_builder: SliceContentBuilder::new(input, scratch_buffer) }
    }
    /// Returns the next JSON event or an error if parsing fails.
    /// Parsing continues until `EndDocument` is returned or an error occurs.
    #[verifier::rlimit(100)]
    #[verifier::spinoff_prover]
    pub fn next_event(&mut self) -> (r: Result<Event<'_, '_>, ParseError>)
        requires
            old(self).wf(),
        ensures
            Self::spec_next_event(old(self), final(self), r),
    {
        if self.content_builder.is_past_end() {
            return Ok(Event::EndDocument);
        }
        let ghost o_input = self.input();
        let ghost len = o_input.len();
        let ghost o_pos = self.pos();
        let ghost v0 = self.tok();
        let ghost p0 = self.pending();
        let ghost mut done: Seq<tokenizer::Event> = Seq::empty();
        proof {
            assert(o_input.subrange(o_pos as int, o_pos as int) =~= Seq::<u8>::empty());
            assert(event_kinds(Seq::<(tokenizer::Event, usize)>::empty()) =~= Seq::<tokenizer::Event>::empty());
            assert(done + p0 =~= p0 + Seq::<tokenizer::Event>::empty() + Seq::<tokenizer::Event>::empty());
            crate::tokenizer_laws::lemma_wrap_add_zero(v0.total);
        }
        loop
            invariant
                self.wf(),
                self.input() == o_input,
                len == o_input.len(),
                o_input == old(self).input(),
                o_pos == old(self).pos(),
                v0 == old(self).tok(),
                p0 == old(self).pending(),
                o_pos <= len,
                o_pos <= self.pos() <= len + 1,
                ({
                    let stop: int = if self.pos() > len {
                        len as int
                    } else {
                        self.pos() as int
                    };
                    let fed = o_input.subrange(o_pos as int, stop);
                    let run = spec_run(v0, Self::max_depth(), fed);
                    let fin = if self.pos() > len {
                        event_kinds(spec_finish(self.tok()).0)
                    } else {
                        Seq::empty()
                    };
                    &&& run.err is None
                    &&& canon(self.tok()) == canon(run.next)
                    &&& self.tok().total == wrap_add(v0.total, fed.len())
                    &&& (self.pos() > len ==> spec_finish(self.tok()).1 is Ok && self.pending().len() > 0 && completes(
                        self.pending()[0],
                    ))
                    &&& done + self.pending() == p0 + event_kinds(run.events) + fin
                }),
                none_complete(done),
                p0.len() > 0 && completes(p0[0]) ==> done.len() == 0 && self.pos() == o_pos && self.pending() == p0,
                ({
                    let stop: int = if self.pos() > len {
                        len as int
                    } else {
                        self.pos() as int
                    };
                    let evs = spec_run(v0, Self::max_depth(), o_input.subrange(o_pos as int, stop)).events;
                    let m = done.len() - p0.len();
                    &&& done.len() < p0.len() ==> evs.len() == 0
                    &&& done.len() >= p0.len() ==> m <= evs.len() && (self.pos() > len ==> m == evs.len())
                        && unhandled_at(evs, m, o_pos as int, self.pos() as int)
                    &&& text_inv(self.content(), o_pos as int, evs, m)
                    &&& num_inv(self.content(), o_pos as int, evs, m)
                }),
            decreases 3 * (len + 1 - self.pos()) + self.pending().len(),
        {
            if !have_events(&self.parser_core.parser_state.evts) {
                let ghost before = self.pos();
                let ghost fed = o_input.subrange(o_pos as int, before as int);
                let ghost tk = self.tok();
                let ghost run = spec_run(v0, Self::max_depth(), fed);
                proof {
                    assert(done + Seq::<tokenizer::Event>::empty() =~= done);
                    assert(done + Seq::<tokenizer::Event>::empty() + Seq::<tokenizer::Event>::empty() =~= done);
                    assert(self.parser_core.parser_state.evts@ =~= seq![None::<tokenizer::Event>, None::<tokenizer::Event>]);
                }
                let ghost c_before = self.content();
                proof {
                    assert(done.len() == p0.len() + run.events.len());
                }
                match self.content_builder.next_byte() {
                    Err(e) => {
                        return Err(e);
                    },
                    Ok(Some(byte)) => {
                        proof {
                            lemma_feed_byte(v0, tk, Self::max_depth(), fed, byte);
                            crate::tokenizer_laws::lemma_run_one_len(tk, Self::max_depth(), byte);
                            assert(o_input.subrange(o_pos as int, before + 1) =~= fed.push(byte));
                        }
                        let chunk = [byte];
                        proof {
                            assert(chunk@ =~= seq![byte]);
                        }
                        let mut events: Vec<(tokenizer::Event, usize)> = Vec::new();
                        let res = self.parser_core.tokenizer.parse_chunk(&chunk, &mut events);
                        proof {
                            assert(events@ =~= Seq::<(tokenizer::Event, usize)>::empty() + events@);
                        }
                        create_tokenizer_callback(&mut self.parser_core.parser_state.evts, &events);
                        match res {
                            Err(e) => {
                                proof {
                                    let fed2 = o_input.subrange(o_pos as int, self.pos() as int);
                                    let all = p0 + event_kinds(spec_run(v0, Self::max_depth(), fed2).events)
                                        + Seq::empty();
                                    assert(done + self.pending() =~= all);
                                    assert(all.take(all.len() - self.pending().len()) =~= done);
                                    assert(all.skip(all.len() - self.pending().len()) =~= self.pending());
                                }
                                return Err(ParseError::TokenizerError(e));
                            },
                            Ok(_) => {},
                        }
                        proof {
                            crate::tokenizer_laws::lemma_run_push(v0, Self::max_depth(), fed, byte);
                            let st = spec_step(run.next, Self::max_depth(), byte, fed.len() as usize);
                            lemma_text_inv_extend(c_before, o_pos as int, run.events, st.events, done.len() - p0.len());
                            assert(text_inv(self.content(), o_pos as int, run.events + st.events, done.len() - p0.len()));
                            lemma_num_inv_extend(c_before, o_pos as int, run.events, st.events, done.len() - p0.len());
                            assert(num_inv(self.content(), o_pos as int, run.events + st.events, done.len() - p0.len()));
                        }
                        proof {
                            crate::tokenizer_laws::lemma_wrap_add_step(v0.total, fed.len());
                            let fed2 = o_input.subrange(o_pos as int, self.pos() as int);
                            assert(done + self.pending() =~= p0 + event_kinds(spec_run(v0, Self::max_depth(), fed2).events)
                                + Seq::empty());
                        }
                    },
                    Ok(None) => {
                        let mut events: Vec<(tokenizer::Event, usize)> = Vec::new();
                        let res = self.parser_core.tokenizer.finish(&mut events);
                        proof {
                            assert(events@ =~= Seq::<(tokenizer::Event, usize)>::empty() + events@);
                            assert(spec_finish(self.tok()).0.len() <= 1);
                            assert(o_input.subrange(o_pos as int, len as int) == fed);
                        }
                        create_tokenizer_callback(&mut self.parser_core.parser_state.evts, &events);
                        proof {
                            let all = p0 + event_kinds(run.events) + event_kinds(spec_finish(self.tok()).0);
                            assert(done + self.pending() =~= all);
                            assert(all.take(all.len() - self.pending().len()) =~= done);
                            assert(all.skip(all.len() - self.pending().len()) =~= self.pending());
                        }
                        match res {
                            Err(e) => {
                                return Err(ParseError::TokenizerError(e));
                            },
                            Ok(_) => {},
                        }
                        if !have_events(&self.parser_core.parser_state.evts) {
                            return Ok(Event::EndDocument);
                        }
                    },
                }
            } else {
                let ghost pend = self.pending();
                let taken = take_first_event(&mut self.parser_core.parser_state.evts);
                let t = match taken {
                    Some(t) => t,
                    None => return Err(ParseError::Unexpected(UnexpectedState::StateMismatch)),
                };
                let ghost stop: int = if self.pos() > len {
                    len as int
                } else {
                    self.pos() as int
                };
                let ghost fed = o_input.subrange(o_pos as int, stop);
                let ghost fin = if self.pos() > len {
                    event_kinds(spec_finish(self.tok()).0)
                } else {
                    Seq::empty()
                };
                let ghost all = p0 + event_kinds(spec_run(v0, Self::max_depth(), fed).events) + fin;
                let ghost evs = spec_run(v0, Self::max_depth(), fed).events;
                let ghost m: int = done.len() - p0.len();
                let ghost c0 = self.content();
                proof {
                    if m >= 0 && m < evs.len() {
                        assert((done + pend)[done.len() as int] == pend[0]);
                        assert((p0 + event_kinds(evs) + fin)[done.len() as int] == event_kinds(evs)[m]);
                        assert(t == evs[m].0);
                    }
                }
                proof {
                    assert(done.push(t) + self.pending() =~= done + pend);
                    done = done.push(t);
                    assert(all.take(all.len() - self.pending().len()) =~= done);
                    assert(all.skip(all.len() - self.pending().len()) =~= self.pending());
                    assert(done.drop_last() =~= done.take(done.len() - 1));
                    assert(done.last() == t);
                }
                match process_simple_events(&t) {
                    Some(EventResult::Complete(ev)) => {
                        return Ok(ev);
                    },
                    Some(EventResult::ExtractString) => {
                        proof {
                            if m >= 0 && m < evs.len() {
                                lemma_text_at_end(c0, o_pos as int, evs, m);
                                assert(evs[m].1 + o_pos + 1 == self.pos());
                                assert(self.content().pos() == o_pos + evs[m].1 + 1);
                                assert(done.len() - 1 - p0.len() == m);
                                assert(self.content().data() == o_input);
                            }
                        }
                        let r = self.content_builder.extract_content(false);
                        proof {
                            assert(t == tokenizer::Event::End(EventToken::String));
                        }
                        return r;
                    },
                    Some(EventResult::ExtractKey) => {
                        proof {
                            if m >= 0 && m < evs.len() {
                                lemma_text_at_end(c0, o_pos as int, evs, m);
                                assert(evs[m].1 + o_pos + 1 == self.pos());
                                assert(self.content().pos() == o_pos + evs[m].1 + 1);
                                assert(done.len() - 1 - p0.len() == m);
                                assert(self.content().data() == o_input);
                            }
                        }
                        let r = self.content_builder.extract_content(true);
                        proof {
                            assert(t == tokenizer::Event::End(EventToken::Key));
                        }
                        return r;
                    },
                    Some(EventResult::ExtractNumber(_)) => {
                        let r = self.content_builder.extract_number();
                        proof {
                            assert(done.len() - 1 - p0.len() == m);
                            assert(c0.data() == o_input);
                            assert(t == tokenizer::Event::End(EventToken::Number) || t == tokenizer::Event::End(
                                EventToken::NumberAndArray,
                            ) || t == tokenizer::Event::End(EventToken::NumberAndObject));
                        }
                        return r;
                    },
                    Some(EventResult::Continue) => {},
                    None => {
                        let rr = self.content_builder.process_other_event(t);
                        if let Err(e) = rr {
                            return Err(e);
                        }
                        proof {
                            if m >= 0 && m < evs.len() {
                                lemma_text_inv_step(c0, self.content(), o_pos as int, evs, m, rr);
                                lemma_num_inv_step(c0, self.content(), o_pos as int, evs, m, rr);
                            }
                            if m < 0 {
                                assert(last_number_open(evs, m + 1) == -1);
                            }
                        }
                    },
                }
                proof {
                    assert forall|i: int| 0 <= i < done.len() implies !completes(#[trigger] done[i]) by {
                        if i < done.len() - 1 {
                            assert(done[i] == done.drop_last()[i]);
                        }
                    }
                }
            }
        }
    }

    /// Iterator-like method: `None` once the document has ended, else the
    /// result of [`SliceParser::next_event`].
    pub fn next(&mut self) -> (r: Option<Result<Event<'_, '_>, ParseError>>)
        requires
            old(self).wf(),
        ensures
            match r {
                None => Self::spec_next_event(old(self), final(self), Ok(Event::EndDocument)),
                Some(x) => Self::spec_next_event(old(self), final(self), x) && !(x matches Ok(Event::EndDocument)),
            },
    {
        match self.next_event() {
            Ok(Event::EndDocument) => None,
            other => Some(other),
        }
    }
}

} // verus!

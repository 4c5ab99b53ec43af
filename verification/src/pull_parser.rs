//! The pull parser over an input slice: it feeds the tokenizer one byte at a
//! time and turns its events into parser events, borrowing strings from the
//! input when they have no escapes.

use vstd::prelude::*;
use vstd::string::StringSliceAdditionalSpecFns;
use vstd::utf8::valid_utf8;

use crate::bitstack::{BitBucket, BitStackConfig, DefaultConfig, DepthCounter};
use crate::copy_on_escape::{escape_handled, splice, string_begun, unicode_escape_copied, unicode_handled, CopyOnEscape};
use crate::escape_processor::{
    process_unicode_escape_sequence, spec_escape_char, spec_escape_token_result, EscapeProcessor,
    UnicodeEscapeCollector,
};
use crate::event_processor::{
    create_tokenizer_callback, have_events, pending_events, process_simple_events, spec_simple_event,
    take_first_event, EventResult,
};
use crate::json_number::{spec_number_result, JsonNumber};
use crate::json_string::String;
use crate::number_parser::{parse_number_event, spec_number_end, NumberExtractor};
use crate::parse_error::{ParseError, UnexpectedState};
use crate::shared::{sat_sub, ContentRange, Event, ParserState, State};
use crate::slice_input_buffer::{self, SliceInputBuffer};
use crate::tokenizer::{self, initial_view, spec_finish, spec_run, spec_step, wrap_add, EventToken, TokView, Tokenizer};
use crate::tokenizer_laws::{canon, event_kinds, lemma_feed_byte, strip_err};

verus! {

/// Whether a tokenizer event completes a parser event.
pub open spec fn completes(e: tokenizer::Event) -> bool {
    spec_simple_event(e) is Some
}

/// None of the events completes a parser event.
pub open spec fn none_complete(s: Seq<tokenizer::Event>) -> bool {
    forall|i: int| 0 <= i < s.len() ==> !completes(#[trigger] s[i])
}

/// The opening of a key or a string.
pub open spec fn opens_text(e: tokenizer::Event) -> bool {
    e == tokenizer::Event::Begin(EventToken::Key) || e == tokenizer::Event::Begin(EventToken::String)
}

/// An escape inside a string: a simple one, or the end of a `\\uXXXX` one.
pub open spec fn escape_event(e: tokenizer::Event) -> bool {
    ||| e matches tokenizer::Event::Begin(t) && spec_escape_char(t) is Some
    ||| e == tokenizer::Event::End(EventToken::UnicodeEscape)
}

/// The index of the last opening of a key or string among the first `m`
/// events, or -1 when there is none.
pub open spec fn last_open(evs: Seq<(tokenizer::Event, usize)>, m: int) -> int
    decreases m,
{
    if m <= 0 {
        -1
    } else if opens_text(evs[m - 1].0) {
        m - 1
    } else {
        last_open(evs, m - 1)
    }
}

/// The opening of a number (raised by its first byte).
pub open spec fn opens_number(e: tokenizer::Event) -> bool {
    ||| e == tokenizer::Event::Begin(EventToken::Number)
    ||| e == tokenizer::Event::Begin(EventToken::NumberAndArray)
    ||| e == tokenizer::Event::Begin(EventToken::NumberAndObject)
}

/// The index of the last opening of a number among the first `m` events, or
/// -1 when there is none.
pub open spec fn last_number_open(evs: Seq<(tokenizer::Event, usize)>, m: int) -> int
    decreases m,
{
    if m <= 0 {
        -1
    } else if opens_number(evs[m - 1].0) {
        m - 1
    } else {
        last_number_open(evs, m - 1)
    }
}

/// What the raw text `raw` of a number returned on the event at index `k`
/// of `evs` (the events of `input` from `base` on), ending at `end`, says
/// when the number opened among them: it is the input from the byte that
/// opened it up to `end`.
pub open spec fn number_from_run(
    input: Seq<u8>,
    base: int,
    evs: Seq<(tokenizer::Event, usize)>,
    k: int,
    end: int,
    raw: Seq<u8>,
) -> bool {
    let b = last_number_open(evs, k);
    0 <= k <= evs.len() && b >= 0 ==> raw == input.subrange(base + evs[b].1, end)
}

/// Adding events after the first `m` does not move the last opening of a
/// number among them.
pub proof fn lemma_last_number_open_prefix(
    evs: Seq<(tokenizer::Event, usize)>,
    more: Seq<(tokenizer::Event, usize)>,
    m: int,
)
    requires
        0 <= m <= evs.len(),
    ensures
        last_number_open(evs + more, m) == last_number_open(evs, m),
        -1 <= last_number_open(evs, m) < m,
        last_number_open(evs, m) >= 0 ==> opens_number(evs[last_number_open(evs, m)].0),
        forall|j: int| last_number_open(evs, m) < j < m ==> !opens_number(#[trigger] evs[j].0),
    decreases m,
{
    if m > 0 {
        assert((evs + more)[m - 1] == evs[m - 1]);
        lemma_last_number_open_prefix(evs, more, m - 1);
    }
}

/// Whether an escape comes between the events at `lo` and `hi`.
pub open spec fn escape_between(evs: Seq<(tokenizer::Event, usize)>, lo: int, hi: int) -> bool {
    exists|j: int| lo < j < hi && escape_event(#[trigger] evs[j].0)
}

/// The input bytes from `from` up to `to`, when that range is non-empty and
/// within the input (else nothing): what a copy up to `to` moves to the
/// scratch buffer when the input was copied up to `from`.
pub open spec fn copy_span(input: Seq<u8>, from: int, to: int) -> Seq<u8> {
    if from < to && to <= input.len() {
        input.subrange(from, to)
    } else {
        Seq::empty()
    }
}

/// The unescaped text of a key or string opened by the event at index `b`,
/// as far as the escapes among the events before index `m` take it, and the
/// input position it has been copied up to: each simple escape adds the
/// input since the last copy, up to its backslash, then its character.
pub open spec fn escaped_text(input: Seq<u8>, base: int, evs: Seq<(tokenizer::Event, usize)>, b: int, m: int) -> (
    Seq<u8>,
    int,
)
    decreases m - b,
{
    if m <= b + 1 {
        (Seq::empty(), base + evs[b].1 + 1)
    } else {
        let prev = escaped_text(input, base, evs, b, m - 1);
        let q = base + evs[m - 1].1;
        match evs[m - 1].0 {
            tokenizer::Event::Begin(t) => if spec_escape_char(t) is Some && spec_escape_token_result(t) is Ok {
                (prev.0 + copy_span(input, prev.1, q - 1).push(spec_escape_token_result(t)->Ok_0), q + 1)
            } else {
                prev
            },
            _ => prev,
        }
    }
}

/// Adding events after index `m` changes nothing of the unescaped text
/// before it.
pub proof fn lemma_escaped_text_prefix(
    input: Seq<u8>,
    base: int,
    evs: Seq<(tokenizer::Event, usize)>,
    more: Seq<(tokenizer::Event, usize)>,
    b: int,
    m: int,
)
    requires
        0 <= b < m <= evs.len(),
    ensures
        escaped_text(input, base, evs + more, b, m) == escaped_text(input, base, evs, b, m),
    decreases m - b,
{
    assert((evs + more)[b] == evs[b]);
    if m > b + 1 {
        assert((evs + more)[m - 1] == evs[m - 1]);
        lemma_escaped_text_prefix(input, base, evs, more, b, m - 1);
    }
}

/// No `\\uXXXX` escape ends between the events at `lo` and `hi`.
pub open spec fn no_unicode_between(evs: Seq<(tokenizer::Event, usize)>, lo: int, hi: int) -> bool {
    forall|j: int| lo < j < hi ==> (#[trigger] evs[j]).0 != tokenizer::Event::End(EventToken::UnicodeEscape)
}

/// What a key or string `s` returned on the tokenizer event at index `k` of
/// `evs` (the events of the input from `base` on, positions counted from
/// `base`) says, when a key or string opened earlier among them: its text
/// lies between the opening quote and the closing one; it is borrowed, as
/// those very input bytes, exactly when no escape came between them; and
/// when it is unescaped with only simple escapes, it is that input with each
/// escape replaced by its character (see [`escaped_text`]).
pub open spec fn text_from_run(input: Seq<u8>, base: int, evs: Seq<(tokenizer::Event, usize)>, k: int, s: String) -> bool {
    let b = last_open(evs, k);
    0 <= k < evs.len() && b >= 0 ==> match s {
        String::Borrowed(t) => !escape_between(evs, b, k) && t.spec_bytes() == input.subrange(
            base + evs[b].1 + 1,
            base + evs[k].1,
        ),
        String::Unescaped(t) => escape_between(evs, b, k) && (no_unicode_between(evs, b, k) ==> t.spec_bytes()
            == escaped_text(input, base, evs, b, k).0 + copy_span(
            input,
            escaped_text(input, base, evs, b, k).1,
            base + evs[k].1,
        )),
    }
}

/// The events from index `m` on were all raised by the byte just before
/// position `pos` (positions counted from `base`).
pub open spec fn unhandled_at(evs: Seq<(tokenizer::Event, usize)>, m: int, base: int, pos: int) -> bool {
    forall|j: int| m <= j < evs.len() ==> (#[trigger] evs[j]).1 + base + 1 == pos
}

pub proof fn lemma_last_open_prefix(evs: Seq<(tokenizer::Event, usize)>, more: Seq<(tokenizer::Event, usize)>, m: int)
    requires
        0 <= m <= evs.len(),
    ensures
        last_open(evs + more, m) == last_open(evs, m),
        -1 <= last_open(evs, m) < m,
    decreases m,
{
    if m > 0 {
        assert((evs + more)[m - 1] == evs[m - 1]);
        lemma_last_open_prefix(evs, more, m - 1);
    }
}

/// What a key or string `s` returned on the tokenizer event at index `k` of
/// `evs` says, for a parser that lets a lone high surrogate escape stand in
/// a borrowed string: as [`text_from_run`], except that a borrowed text may
/// have come with `\\uXXXX` escapes between the quotes (though with no
/// other escape).
pub open spec fn text_from_run_lenient(
    input: Seq<u8>,
    base: int,
    evs: Seq<(tokenizer::Event, usize)>,
    k: int,
    s: String,
) -> bool {
    let b = last_open(evs, k);
    0 <= k < evs.len() && b >= 0 ==> match s {
        String::Borrowed(t) => (forall|j: int|
            b < j < k && escape_event(#[trigger] evs[j].0) ==> evs[j].0 == tokenizer::Event::End(EventToken::UnicodeEscape))
            && t.spec_bytes() == input.subrange(base + evs[b].1 + 1, base + evs[k].1),
        String::Unescaped(t) => escape_between(evs, b, k) && (no_unicode_between(evs, b, k) ==> t.spec_bytes()
            == escaped_text(input, base, evs, b, k).0 + copy_span(
            input,
            escaped_text(input, base, evs, b, k).1,
            base + evs[k].1,
        )),
    }
}

/// A flexible pull parser for JSON that yields events on demand.
/// Generic over BitStack storage type for configurable nesting depth.
///
/// Lifetime 'a is the input buffer lifetime, 'b the scratch buffer lifetime.
pub struct PullParser<'a, 'b, C: BitStackConfig = DefaultConfig> {
    tokenizer: Tokenizer<C::Bucket, C::Counter>,
    buffer: SliceInputBuffer<'a>,
    parser_state: ParserState,
    state: State,
    copy_on_escape: CopyOnEscape<'a, 'b>,
    unicode_escape_collector: UnicodeEscapeCollector,
}

impl<'a> PullParser<'a, '_, DefaultConfig> {
    /// Creates a new parser for the given JSON input. It has no scratch
    /// buffer: a string with escapes fails with `ScratchBufferFull`.
    pub fn new(input: &'a str) -> (r: Self)
        requires
            input.spec_bytes().len() < usize::MAX,
        ensures
            r.wf(),
            r.input() == input.spec_bytes(),
            r.pos() == 0,
            r.tok() == initial_view(u32::capacity()),
            r.pending().len() == 0,
            r.scratch().len() == 0,
    {
        Self::with_config(input)
    }
}

impl<'a, 'b> PullParser<'a, 'b, DefaultConfig> {
    /// Creates a new parser for the given JSON input, with a scratch buffer
    /// for unescaping strings.
    pub fn with_buffer(input: &'a str, scratch_buffer: &'b mut [u8]) -> (r: Self)
        requires
            input.spec_bytes().len() < usize::MAX,
        ensures
            r.wf(),
            r.input() == input.spec_bytes(),
            r.pos() == 0,
            r.tok() == initial_view(u32::capacity()),
            r.pending().len() == 0,
            r.scratch() == old(scratch_buffer)@,
    {
        Self::with_config_and_buffer(input, scratch_buffer)
    }
}

impl<'a, 'b, C: BitStackConfig> PullParser<'a, 'b, C> {
    /// The input.
    pub closed spec fn input(&self) -> Seq<u8> {
        self.buffer.data()
    }

    /// The position of the next input byte (one past the end once the end
    /// has been reached).
    pub closed spec fn pos(&self) -> usize {
        self.buffer.pos()
    }

    /// The tokenizer.
    pub closed spec fn tok(&self) -> TokView {
        self.tokenizer.view()
    }

    /// Tokenizer events received and not yet handled.
    pub closed spec fn pending(&self) -> Seq<tokenizer::Event> {
        pending_events(self.parser_state.evts)
    }

    /// Where the current (or last) string starts in the input.
    pub closed spec fn string_start(&self) -> usize {
        self.copy_on_escape.string_start
    }

    /// The scratch buffer.
    pub closed spec fn scratch(&self) -> Seq<u8> {
        self.copy_on_escape.scratch_bytes()
    }

    /// The unescaped text of the current (or last) string in the scratch
    /// buffer.
    pub closed spec fn scratch_text(&self) -> Seq<u8> {
        self.copy_on_escape.scratch_bytes().subrange(
            self.copy_on_escape.scratch_start as int,
            self.copy_on_escape.scratch_pos as int,
        )
    }

    /// The parts of the parser agree on the input.
    pub closed spec fn wf(&self) -> bool {
        &&& self.buffer.wf()
        &&& self.copy_on_escape.input@ == self.buffer.data()
    }

    /// The largest nesting depth.
    pub open spec fn max_depth() -> nat {
        C::Counter::max_count()
    }

    /// What a string event returned now says of its text: borrowed, it is
    /// the input from the string's start to just before the closing quote;
    /// unescaped, it is the scratch buffer's text for it.
    pub open spec fn string_text_ok(&self, s: String) -> bool {
        match s {
            String::Borrowed(t) => t.spec_bytes() == self.input().subrange(
                self.string_start() as int,
                sat_sub(self.pos(), 1) as int,
            ),
            String::Unescaped(t) => t.spec_bytes() == self.scratch_text(),
        }
    }

    /// What a complete `\\uXXXX` escape just read does, from `o` to `f`,
    /// returning `r` (see [`unicode_escape_copied`]); the rest of the
    /// parser stays.
    closed spec fn unicode_done(f: &Self, o: &Self, r: Result<(), ParseError>) -> bool {
        &&& f.buffer == o.buffer
        &&& f.tokenizer == o.tokenizer
        &&& f.parser_state == o.parser_state
        &&& f.state == o.state
        &&& unicode_escape_copied(
            f.copy_on_escape,
            o.copy_on_escape,
            f.unicode_escape_collector,
            o.unicode_escape_collector,
            o.buffer.pos(),
            r,
        )
    }

    /// What handling a tokenizer event that completes no parser event does,
    /// from `o` to `f`, returning `r`: a key or string begins at the input
    /// position (see [`string_begun`]), a number at the byte before it; a
    /// simple escape inside a string or key is copied (see
    /// [`escape_handled`]); a `\\uXXXX` escape begins with no digits, and at
    /// its end, inside a string or key, is done (see
    /// [`PullParser::unicode_done`]); an uninitialized event is a state
    /// mismatch; other events change nothing.
    closed spec fn other_event_done(f: &Self, o: &Self, event: tokenizer::Event, r: Result<(), ParseError>) -> bool {
        let in_string = o.state is String || o.state is Key;
        let pos = o.buffer.pos();
        let same_rest = f.copy_on_escape == o.copy_on_escape && f.unicode_escape_collector
            == o.unicode_escape_collector;
        &&& f.buffer == o.buffer
        &&& f.tokenizer == o.tokenizer
        &&& f.parser_state == o.parser_state
        &&& match event {
            tokenizer::Event::Begin(EventToken::Key) => r is Ok && f.state == State::Key(pos) && string_begun(
                f.copy_on_escape,
                o.copy_on_escape,
                pos,
            ) && f.unicode_escape_collector == o.unicode_escape_collector,
            tokenizer::Event::Begin(EventToken::String) => r is Ok && f.state == State::String(pos) && string_begun(
                f.copy_on_escape,
                o.copy_on_escape,
                pos,
            ) && f.unicode_escape_collector == o.unicode_escape_collector,
            tokenizer::Event::Begin(EventToken::Number)
            | tokenizer::Event::Begin(EventToken::NumberAndArray)
            | tokenizer::Event::Begin(EventToken::NumberAndObject) => r is Ok && same_rest && f.state == State::Number(
                sat_sub(pos, 1),
            ),
            tokenizer::Event::Begin(EventToken::UnicodeEscape) => {
                &&& r is Ok
                &&& f.state == o.state
                &&& f.copy_on_escape == o.copy_on_escape
                &&& if in_string {
                    f.unicode_escape_collector.digits() == Seq::<u8>::empty()
                        && f.unicode_escape_collector.pending() == o.unicode_escape_collector.pending()
                } else {
                    f.unicode_escape_collector == o.unicode_escape_collector
                }
            },
            tokenizer::Event::End(EventToken::UnicodeEscape) => if in_string {
                Self::unicode_done(f, o, r)
            } else {
                r is Ok && same_rest && f.state == o.state
            },
            tokenizer::Event::Begin(t) if spec_escape_char(t) is Some => {
                &&& f.state == o.state
                &&& f.unicode_escape_collector == o.unicode_escape_collector
                &&& match spec_escape_token_result(t) {
                    Err(e) => r == Err::<(), ParseError>(e) && f.copy_on_escape == o.copy_on_escape,
                    Ok(c) => if in_string {
                        escape_handled(f.copy_on_escape, o.copy_on_escape, pos, c, r)
                    } else {
                        r is Ok && f.copy_on_escape == o.copy_on_escape
                    },
                }
            },
            tokenizer::Event::Uninitialized => r == Err::<(), ParseError>(
                ParseError::Unexpected(UnexpectedState::StateMismatch),
            ) && same_rest && f.state == o.state,
            _ => r is Ok && same_rest && f.state == o.state,
        }
    }

    /// What the parser holds of the key or string in progress, after the
    /// first `m` of the events `evs` (the events of the input from `base`
    /// on): if a key or string opened among them and is still being read, it
    /// starts just after its opening quote; its text went to the scratch
    /// buffer only if an escape came since; and while it has not, the only
    /// escapes were `\\uXXXX` ones.
    closed spec fn text_inv(&self, base: int, evs: Seq<(tokenizer::Event, usize)>, m: int) -> bool {
        let b = last_open(evs, m);
        m >= 0 && b >= 0 && (self.state is String || self.state is Key) ==> {
            &&& self.copy_on_escape.string_start == base + evs[b].1 + 1
            &&& self.copy_on_escape.using_scratch ==> escape_between(evs, b, m)
            &&& !self.copy_on_escape.using_scratch ==> forall|j: int|
                b < j < m && escape_event(#[trigger] evs[j].0) ==> evs[j].0 == tokenizer::Event::End(
                    EventToken::UnicodeEscape,
                )
            &&& no_unicode_between(evs, b, m) ==> {
                let et = escaped_text(self.input(), base, evs, b, m);
                let c = self.copy_on_escape;
                &&& c.last_copied_pos == et.1
                &&& c.using_scratch ==> c.scratch_start <= c.scratch_pos <= c.scratch_bytes().len()
                    && self.scratch_text() == et.0
                &&& !c.using_scratch ==> c.scratch_pos == c.scratch_start && et.0 == Seq::<u8>::empty()
            }
        }
    }

    /// What the parser holds of the number in progress, after the first `m`
    /// of the events `evs` (those of the input from `base` on): if a number
    /// opened among them and is still being read, it starts at the byte that
    /// opened it.
    closed spec fn num_inv(&self, base: int, evs: Seq<(tokenizer::Event, usize)>, m: int) -> bool {
        let b = last_number_open(evs, m);
        0 <= m <= evs.len() && b >= 0 ==> match self.state {
            State::Number(p) => p == base + evs[b].1,
            _ => true,
        }
    }

    /// Adding events after the first `m` changes nothing of what holds of
    /// the number in progress.
    proof fn lemma_num_inv_extend(
        c: &Self,
        base: int,
        evs: Seq<(tokenizer::Event, usize)>,
        more: Seq<(tokenizer::Event, usize)>,
        m: int,
    )
        requires
            0 <= m <= evs.len(),
            c.num_inv(base, evs, m),
        ensures
            c.num_inv(base, evs + more, m),
    {
        lemma_last_number_open_prefix(evs, more, m);
        let b = last_number_open(evs, m);
        if b >= 0 {
            assert((evs + more)[b] == evs[b]);
        }
    }

    /// Handling the event at index `m` keeps what holds of the number in
    /// progress.
    proof fn lemma_num_inv_step(
        o: &Self,
        f: &Self,
        base: int,
        evs: Seq<(tokenizer::Event, usize)>,
        m: int,
        r: Result<(), ParseError>,
    )
        requires
            0 <= m < evs.len(),
            base >= 0,
            o.num_inv(base, evs, m),
            o.pos() == base + evs[m].1 + 1,
            Self::other_event_done(f, o, evs[m].0, r),
            r is Ok,
        ensures
            f.num_inv(base, evs, m + 1),
    {
        lemma_last_number_open_prefix(evs, Seq::empty(), m);
        if opens_number(evs[m].0) {
            assert(last_number_open(evs, m + 1) == m);
        } else {
            assert(last_number_open(evs, m + 1) == last_number_open(evs, m));
        }
    }

    /// Adding events after the first `m` changes nothing of what holds of
    /// them.
    proof fn lemma_text_inv_extend(
        c: &Self,
        base: int,
        evs: Seq<(tokenizer::Event, usize)>,
        more: Seq<(tokenizer::Event, usize)>,
        m: int,
    )
        requires
            0 <= m <= evs.len(),
            c.text_inv(base, evs, m),
        ensures
            c.text_inv(base, evs + more, m),
    {
        lemma_last_open_prefix(evs, more, m);
        let e2 = evs + more;
        let b = last_open(evs, m);
        if b >= 0 && (c.state is String || c.state is Key) {
            assert(e2[b] == evs[b]);
            if escape_between(evs, b, m) {
                let j = choose|j: int| b < j < m && escape_event(#[trigger] evs[j].0);
                assert(e2[j] == evs[j]);
            }
            assert forall|j: int| b < j < m && escape_event(#[trigger] e2[j].0) implies (
            !c.copy_on_escape.using_scratch ==> e2[j].0 == tokenizer::Event::End(EventToken::UnicodeEscape)) by {
                assert(e2[j] == evs[j]);
            }
            lemma_escaped_text_prefix(c.input(), base, evs, more, b, m);
            assert(no_unicode_between(e2, b, m) == no_unicode_between(evs, b, m)) by {
                if !no_unicode_between(evs, b, m) {
                    let j = choose|j: int|
                        b < j < m && !((#[trigger] evs[j]).0 != tokenizer::Event::End(EventToken::UnicodeEscape));
                    assert(e2[j] == evs[j]);
                }
                if !no_unicode_between(e2, b, m) {
                    let j = choose|j: int|
                        b < j < m && !((#[trigger] e2[j]).0 != tokenizer::Event::End(EventToken::UnicodeEscape));
                    assert(e2[j] == evs[j]);
                }
            }
        }
    }

    /// Handling the event at index `m` keeps what holds of the text in
    /// progress.
    proof fn lemma_text_inv_step(
        o: &Self,
        f: &Self,
        base: int,
        evs: Seq<(tokenizer::Event, usize)>,
        m: int,
        r: Result<(), ParseError>,
    )
        requires
            0 <= m < evs.len(),
            o.text_inv(base, evs, m),
            o.pos() == base + evs[m].1 + 1,
            Self::other_event_done(f, o, evs[m].0, r),
            r is Ok,
            f.input() == o.input(),
            o.copy_on_escape.input@ == o.input(),
        ensures
            f.text_inv(base, evs, m + 1),
    {
        let t = evs[m].0;
        lemma_last_open_prefix(evs, Seq::empty(), m);
        let b = last_open(evs, m + 1);
        if opens_text(t) {
            assert(b == m);
            assert(escaped_text(f.input(), base, evs, m, m + 1) == (Seq::<u8>::empty(), base + evs[m].1 + 1));
        } else {
            assert(b == last_open(evs, m));
            if b >= 0 && (f.state is String || f.state is Key) {
                let nu = no_unicode_between(evs, b, m + 1);
                if nu {
                    assert(no_unicode_between(evs, b, m));
                }
                if escape_event(t) {
                    assert(escape_between(evs, b, m + 1)) by {
                        assert(b < m && m < m + 1 && escape_event(evs[m].0));
                    }
                    if nu {
                        assert(evs[m].0 != tokenizer::Event::End(EventToken::UnicodeEscape));
                        let oc = o.copy_on_escape;
                        let fc = f.copy_on_escape;
                        let pos = o.buffer.pos();
                        let span = oc.pending_span(sat_sub(pos, 2));
                        assert(span == copy_span(o.input(), oc.last_copied_pos as int, sat_sub(pos, 2) as int));
                        assert(sat_sub(pos, 2) == base + evs[m].1 - 1 || span == copy_span(
                            o.input(),
                            oc.last_copied_pos as int,
                            base + evs[m].1 - 1,
                        ));
                        if let tokenizer::Event::Begin(tk) = t {
                            let c = spec_escape_token_result(tk)->Ok_0;
                            let nb = splice(oc.scratch_bytes(), oc.scratch_pos as int, span.push(c));
                            assert(fc.scratch_bytes() == nb);
                            assert(nb.subrange(oc.scratch_start as int, fc.scratch_pos as int) =~= oc.scratch_bytes().subrange(
                                oc.scratch_start as int,
                                oc.scratch_pos as int,
                            ) + span.push(c));
                        }
                    }
                } else {
                    if escape_between(evs, b, m + 1) {
                        let j = choose|j: int| b < j < m + 1 && escape_event(#[trigger] evs[j].0);
                        assert(j != m);
                    }
                }
            }
        }
    }

    /// A key or string ended by the event at index `m` has the text that
    /// [`text_from_run_lenient`] gives, whatever the parser after it, as
    /// long as it kept the string's start and gave back the text it holds.
    proof fn lemma_text_at_end(c0: &Self, base: int, evs: Seq<(tokenizer::Event, usize)>, m: int)
        requires
            0 <= m < evs.len(),
            base >= 0,
            c0.text_inv(base, evs, m),
            c0.pos() == base + evs[m].1 + 1,
        ensures
            forall|f: Self, s: String|
                (c0.state is String || c0.state is Key) && f.string_start() == c0.string_start() && f.pos()
                    == c0.pos() && f.input() == c0.input() && #[trigger] f.string_text_ok(s) && (s is Unescaped)
                    == c0.copy_on_escape.using_scratch && (s is Unescaped && c0.copy_on_escape.scratch_start
                    <= c0.copy_on_escape.scratch_pos <= c0.copy_on_escape.scratch_bytes().len()
                    ==> f.scratch_text() == c0.scratch_text() + copy_span(
                    c0.input(),
                    c0.copy_on_escape.last_copied_pos as int,
                    sat_sub(c0.pos(), 1) as int,
                )) ==> text_from_run_lenient(f.input(), base, evs, m, s),
    {
        let b = last_open(evs, m);
        assert forall|f: Self, s: String|
            (c0.state is String || c0.state is Key) && f.string_start() == c0.string_start() && f.pos() == c0.pos()
                && f.input() == c0.input() && #[trigger] f.string_text_ok(s) && (s is Unescaped)
                == c0.copy_on_escape.using_scratch && (s is Unescaped && c0.copy_on_escape.scratch_start
                <= c0.copy_on_escape.scratch_pos <= c0.copy_on_escape.scratch_bytes().len()
                ==> f.scratch_text() == c0.scratch_text() + copy_span(
                c0.input(),
                c0.copy_on_escape.last_copied_pos as int,
                sat_sub(c0.pos(), 1) as int,
            )) implies text_from_run_lenient(f.input(), base, evs, m, s) by {
            if b >= 0 {
                assert(sat_sub(c0.pos(), 1) == base + evs[m].1);
                match s {
                    String::Borrowed(t) => {},
                    String::Unescaped(_) => {},
                }
            }
        }
    }

    /// What an error `e` from ending the current string (`key`: the current
    /// key) says of the parser right after: it was not in a string (or key)
    /// of that kind; or the string was ended and its text could not be had:
    /// copying the rest of it into the scratch buffer failed with `e` (with
    /// no room left, `ScratchBufferFull`), the unescaped text lies outside
    /// the scratch buffer, or it is not UTF-8; for a string without escapes,
    /// the input before the closing quote is out of range or not UTF-8.
    pub closed spec fn string_end_failed(&self, key: bool, e: ParseError) -> bool {
        let end = sat_sub(self.pos(), 1);
        let c = self.copy_on_escape;
        let kind_ok = if key {
            self.state is Key
        } else {
            self.state is String
        };
        ||| e == ParseError::Unexpected(UnexpectedState::StateMismatch) && !kind_ok
        ||| self.state is Empty && if c.using_scratch {
            ||| c.span_error(end, 0) == Some(e)
            ||| e == ParseError::Unexpected(UnexpectedState::InvalidSliceBounds) && (c.scratch_start
                > c.scratch_pos || c.scratch_pos > c.scratch_bytes().len())
            ||| e is InvalidUtf8 && !valid_utf8(self.scratch_text())
        } else {
            ||| e == ParseError::Unexpected(UnexpectedState::InvalidSliceBounds) && !(c.string_start <= end
                <= c.input@.len())
            ||| e is InvalidUtf8 && !valid_utf8(c.input@.subrange(c.string_start as int, end as int))
        }
    }

    /// What an error `e` from handling a tokenizer event says of the parser
    /// right after (no other event fails): a key or string end fails as
    /// [`PullParser::string_end_failed`] says; a number end fails when the
    /// parser was not in a number, or its text is out of range or not a
    /// number; a simple escape fails when its token is not one, or inside a
    /// string or key when copying into the scratch buffer fails (with no room
    /// for the unescaped byte, `ScratchBufferFull`); a `\\uXXXX` escape fails
    /// only inside a string or key, and never with a tokenizer error; an
    /// uninitialized event is a state mismatch.
    pub closed spec fn failed_on(&self, last: tokenizer::Event, e: ParseError) -> bool {
        let in_string = self.state is String || self.state is Key;
        let c = self.copy_on_escape;
        match last {
            tokenizer::Event::End(EventToken::Key) => self.string_end_failed(true, e),
            tokenizer::Event::End(EventToken::String) => self.string_end_failed(false, e),
            tokenizer::Event::End(EventToken::Number)
            | tokenizer::Event::End(EventToken::NumberAndArray)
            | tokenizer::Event::End(EventToken::NumberAndObject) => {
                ||| e == ParseError::Unexpected(UnexpectedState::StateMismatch) && !(self.state is Number)
                ||| self.state is Empty && (e == ParseError::Unexpected(UnexpectedState::InvalidSliceBounds)
                    || e is InvalidNumber || e is InvalidUtf8)
            },
            tokenizer::Event::End(EventToken::UnicodeEscape) => in_string && !(e is TokenizerError),
            tokenizer::Event::Begin(t) => spec_escape_char(t) is Some && (spec_escape_token_result(t) == Err::<
                u8,
                ParseError,
            >(e) || in_string && (c.span_error(sat_sub(self.pos(), 2), 1) == Some(e) || e
                == ParseError::ScratchBufferFull && c.scratch_pos >= c.scratch_bytes().len())),
            tokenizer::Event::Uninitialized => e == ParseError::Unexpected(UnexpectedState::StateMismatch),
            _ => false,
        }
    }

    /// What a returned event says of the tokenizer event that completed it
    /// (and of the parser right after).
    pub open spec fn event_for(&self, ev: Event, last: tokenizer::Event) -> bool {
        match ev {
            Event::Key(s) => last == tokenizer::Event::End(EventToken::Key) && self.string_text_ok(s),
            Event::String(s) => last == tokenizer::Event::End(EventToken::String) && self.string_text_ok(s),
            Event::Number(n) => match spec_simple_event(last) {
                Some(EventResult::ExtractNumber(from_container_end)) => {
                    let end = spec_number_end(self.pos(), from_container_end, self.pos() >= self.input().len());
                    &&& n matches JsonNumber::Borrowed { raw, parsed }
                    &&& parsed == spec_number_result(raw.spec_bytes())
                    &&& raw.spec_bytes().len() <= end
                    &&& raw.spec_bytes() == self.input().subrange(end - raw.spec_bytes().len(), end as int)
                },
                _ => false,
            },
            _ => spec_simple_event(last) == Some(EventResult::Complete(ev)),
        }
    }

    /// What one call of [`PullParser::next_event`] does, from parser `o` to
    /// parser `f`, returning `r`. Past the end it returns `EndDocument` and
    /// changes nothing. Otherwise it feeds the input bytes one at a time to
    /// the tokenizer (and finishes the document at the end of the input),
    /// and handles the tokenizer's events in order, the pending ones first,
    /// until one completes a parser event, which it returns; the events not
    /// yet handled stay pending. It returns `EndDocument` once the input is
    /// exhausted without a completed event, and the tokenizer's error when
    /// there is one. Any other error comes from handling the last event
    /// taken, as [`PullParser::failed_on`] says of the parser right after.
    /// When the first pending event completes a parser event, no input is
    /// read: that event alone is handled.
    pub open spec fn spec_next_event(o: &Self, f: &Self, r: Result<Event, ParseError>) -> bool {
        let len = o.input().len();
        &&& f.wf()
        &&& f.input() == o.input()
        &&& o.pos() > len ==> r == Ok::<Event, ParseError>(Event::EndDocument) && f.pos() == o.pos() && f.tok()
            == o.tok() && f.pending() == o.pending()
        &&& o.pos() <= len ==> {
            let stop: int = if f.pos() > len {
                len as int
            } else {
                f.pos() as int
            };
            let fed = o.input().subrange(o.pos() as int, stop);
            let run = spec_run(o.tok(), Self::max_depth(), fed);
            let all = o.pending() + event_kinds(run.events) + if f.pos() > len {
                event_kinds(spec_finish(f.tok()).0)
            } else {
                Seq::empty()
            };
            let done = all.take(all.len() - f.pending().len());
            &&& o.pos() <= f.pos() <= len + 1
            &&& canon(f.tok()) == canon(run.next)
            &&& run.err is None ==> f.tok().total == wrap_add(o.tok().total, fed.len())
            &&& f.pending().len() <= all.len()
            &&& f.pending() == all.skip(all.len() - f.pending().len())
            &&& o.pending().len() > 0 && completes(o.pending()[0]) ==> f.pos() == o.pos() && done.len() == 1
            &&& match r {
                Ok(Event::EndDocument) => f.pos() > len && run.err is None && spec_finish(f.tok()).1 is Ok
                    && none_complete(done),
                Err(ParseError::TokenizerError(e)) => none_complete(done) && match run.err {
                    Some(e2) => strip_err(e) == strip_err(e2),
                    None => f.pos() > len && spec_finish(f.tok()).1 == Err::<usize, tokenizer::Error>(e),
                },
                Ok(ev) => run.err is None && done.len() > 0 && none_complete(done.drop_last()) && f.event_for(
                    ev,
                    done.last(),
                ) && match ev {
                    Event::Key(s) | Event::String(s) => text_from_run_lenient(
                        o.input(),
                        o.pos() as int,
                        run.events,
                        done.len() - 1 - o.pending().len(),
                        s,
                    ),
                    Event::Number(JsonNumber::Borrowed { raw, .. }) => match spec_simple_event(done.last()) {
                        Some(EventResult::ExtractNumber(fce)) => number_from_run(
                            o.input(),
                            o.pos() as int,
                            run.events,
                            done.len() - 1 - o.pending().len(),
                            spec_number_end(f.pos(), fce, f.pos() >= f.input().len()) as int,
                            raw.spec_bytes(),
                        ),
                        _ => true,
                    },
                    _ => true,
                },
                Err(e) => run.err is None && done.len() > 0 && none_complete(done.drop_last()) && f.failed_on(
                    done.last(),
                    e,
                ),
            }
        }
    }

    /// The events the tokenizer raised on the bytes read by a call of
    /// [`PullParser::next_event`] from `o` to `f`, positions counted from
    /// where the call started reading.
    pub open spec fn call_events(o: &Self, f: &Self) -> Seq<(tokenizer::Event, usize)> {
        let len = o.input().len();
        let stop: int = if f.pos() > len {
            len as int
        } else {
            f.pos() as int
        };
        spec_run(o.tok(), Self::max_depth(), o.input().subrange(o.pos() as int, stop)).events
    }

    /// The events a call from `o` to `f` handled, in order: the pending
    /// ones, then those raised during the call, up to the one that completed
    /// what it returned.
    pub open spec fn call_handled(o: &Self, f: &Self) -> Seq<tokenizer::Event> {
        let len = o.input().len();
        let all = o.pending() + event_kinds(Self::call_events(o, f)) + if f.pos() > len {
            event_kinds(spec_finish(f.tok()).0)
        } else {
            Seq::empty()
        };
        all.take(all.len() - f.pending().len())
    }

    /// A number that [`PullParser::next_event`] returns, when it began
    /// during the call, is the input from the byte on which the tokenizer
    /// raised its opening (with no other number opened since) up to the
    /// byte that ended it (not included when a delimiter ended it), and its
    /// value is that text's. No sign or digit of it is left out.
    pub proof fn law_number_text(o: &Self, f: &Self, r: Result<Event, ParseError>)
        requires
            Self::spec_next_event(o, f, r),
            o.pos() <= o.input().len(),
        ensures
            ({
                let evs = Self::call_events(o, f);
                let handled = Self::call_handled(o, f);
                let k = handled.len() - 1 - o.pending().len();
                let b = last_number_open(evs, k);
                match (r, spec_simple_event(handled.last())) {
                    (
                        Ok(Event::Number(JsonNumber::Borrowed { raw, parsed })),
                        Some(EventResult::ExtractNumber(fce)),
                    ) => 0 <= k <= evs.len() && b >= 0 ==> {
                        &&& opens_number(evs[b].0)
                        &&& forall|j: int| b < j < k ==> !opens_number(#[trigger] evs[j].0)
                        &&& raw.spec_bytes() == o.input().subrange(
                            o.pos() + evs[b].1,
                            spec_number_end(f.pos(), fce, f.pos() >= f.input().len()) as int,
                        )
                        &&& parsed == spec_number_result(raw.spec_bytes())
                    },
                    _ => true,
                }
            }),
    {
        let evs = Self::call_events(o, f);
        let handled = Self::call_handled(o, f);
        let k = handled.len() - 1 - o.pending().len();
        if 0 <= k <= evs.len() {
            lemma_last_number_open_prefix(evs, Seq::empty(), k);
        }
    }

    /// Creates a new parser with a custom `BitStackConfig` and no scratch
    /// buffer.
    pub fn with_config(input: &'a str) -> (r: Self)
        requires
            input.spec_bytes().len() < usize::MAX,
        ensures
            r.wf(),
            r.input() == input.spec_bytes(),
            r.pos() == 0,
            r.tok() == initial_view(C::Bucket::capacity()),
            r.pending().len() == 0,
            r.scratch().len() == 0,
    {
        let empty: &'b mut [u8] = &mut [];
        Self::with_config_and_buffer(input, empty)
    }

    /// Creates a new parser with a custom `BitStackConfig` and a scratch
    /// buffer for unescaping strings.
    pub fn with_config_and_buffer(input: &'a str, scratch_buffer: &'b mut [u8]) -> (r: Self)
        requires
            input.spec_bytes().len() < usize::MAX,
        ensures
            r.wf(),
            r.input() == input.spec_bytes(),
            r.pos() == 0,
            r.tok() == initial_view(C::Bucket::capacity()),
            r.pending().len() == 0,
            r.scratch() == old(scratch_buffer)@,
    {
        let data = input.as_bytes();
        let copy_on_escape = CopyOnEscape::new(data, scratch_buffer);
        let parser_state = ParserState::new();
        PullParser {
            tokenizer: Tokenizer::new(),
            buffer: SliceInputBuffer::new(data),
            parser_state,
            state: State::Empty,
            copy_on_escape,
            unicode_escape_collector: UnicodeEscapeCollector::new(),
        }
    }

    /// Feeds the next input byte to the tokenizer (or, at the end of the
    /// input, finishes the document) and stores the events it emits.
    fn pull_tokenizer_events(&mut self) -> (r: Result<(), ParseError>)
        requires
            old(self).wf(),
            old(self).pending().len() == 0,
        ensures
            final(self).wf(),
            final(self).input() == old(self).input(),
            final(self).string_start() == old(self).string_start(),
            final(self).scratch() == old(self).scratch(),
            final(self).scratch_text() == old(self).scratch_text(),
            final(self).state == old(self).state,
            final(self).copy_on_escape == old(self).copy_on_escape,
            final(self).unicode_escape_collector == old(self).unicode_escape_collector,
            old(self).pos() > old(self).input().len() ==> r == Err::<(), ParseError>(ParseError::EndOfData)
                && final(self).pos() == old(self).pos() && final(self).tok() == old(self).tok()
                && final(self).pending().len() == 0,
            old(self).pos() < old(self).input().len() ==> ({
                let b = old(self).input()[old(self).pos() as int];
                let o = spec_run(old(self).tok(), Self::max_depth(), seq![b]);
                &&& final(self).pos() == old(self).pos() + 1
                &&& final(self).pending() == event_kinds(o.events)
                &&& o.events.len() <= 2
                &&& match o.err {
                    None => r is Ok && final(self).tok() == (TokView {
                        total: wrap_add(old(self).tok().total, 1),
                        ..o.next
                    }),
                    Some(e) => r == Err::<(), ParseError>(ParseError::TokenizerError(e)) && final(self).tok() == o.next,
                }
            }),
            old(self).pos() == old(self).input().len() ==> ({
                let f = spec_finish(old(self).tok());
                &&& final(self).pos() == old(self).pos() + 1
                &&& final(self).pending() == event_kinds(f.0)
                &&& final(self).tok() == old(self).tok()
                &&& match f.1 {
                    Ok(_) => r is Ok,
                    Err(e) => r == Err::<(), ParseError>(ParseError::TokenizerError(e)),
                }
            }),
    {
        if self.buffer.is_past_end() {
            return Err(ParseError::EndOfData);
        }
        let ghost v = self.tokenizer.view();
        let ghost p = self.buffer.pos();
        let mut events: Vec<(tokenizer::Event, usize)> = Vec::new();
        let res = match self.buffer.consume_byte() {
            Err(_) => self.tokenizer.finish(&mut events),
            Ok(byte) => {
                let chunk = [byte];
                proof {
                    assert(chunk@ =~= seq![byte]);
                    assert(spec_run(v, Self::max_depth(), seq![byte]).events.len() <= 2) by {
                        crate::tokenizer_laws::lemma_run_one_len(v, Self::max_depth(), byte);
                    }
                }
                self.tokenizer.parse_chunk(&chunk, &mut events)
            },
        };
        proof {
            assert(events@ =~= Seq::<(tokenizer::Event, usize)>::empty() + events@);
            if p == self.buffer.data().len() {
                assert(spec_finish(v).0.len() <= 1);
            }
        }
        proof {
            assert(self.parser_state.evts@ =~= seq![None::<tokenizer::Event>, None::<tokenizer::Event>]);
        }
        create_tokenizer_callback(&mut self.parser_state.evts, &events);
        match res {
            Ok(_) => Ok(()),
            Err(e) => Err(ParseError::TokenizerError(e)),
        }
    }

    /// Ends the current string (`key`: the current key) and returns it, as
    /// the copy-on-escape processor gives it.
    fn extract_content(&mut self, key: bool) -> (r: Result<Event<'_, '_>, ParseError>)
        requires
            old(self).wf(),
        ensures
            final(self).wf(),
            final(self).input() == old(self).input(),
            final(self).pos() == old(self).pos(),
            final(self).tok() == old(self).tok(),
            final(self).pending() == old(self).pending(),
            r matches Ok(ev) ==> if key {
                ev matches Event::Key(s) && final(self).string_text_ok(s)
            } else {
                ev matches Event::String(s) && final(self).string_text_ok(s)
            },
            r is Ok ==> (if key {
                old(self).state is Key
            } else {
                old(self).state is String
            }) && final(self).string_start() == old(self).string_start(),
            r matches Ok(ev) ==> match ev {
                Event::Key(s) | Event::String(s) => (s is Unescaped) == old(self).copy_on_escape.using_scratch && (
                s is Unescaped && old(self).copy_on_escape.scratch_start <= old(self).copy_on_escape.scratch_pos
                    <= old(self).copy_on_escape.scratch_bytes().len() ==> final(self).scratch_text()
                    == old(self).scratch_text() + copy_span(
                    old(self).input(),
                    old(self).copy_on_escape.last_copied_pos as int,
                    sat_sub(old(self).pos(), 1) as int,
                )),
                _ => true,
            },
            r matches Err(e) ==> !(e is TokenizerError) && final(self).string_end_failed(key, e),
    {
        let in_place = match self.state {
            State::Key(_) => key,
            State::String(_) => !key,
            _ => false,
        };
        if !in_place {
            return Err(ParseError::Unexpected(UnexpectedState::StateMismatch));
        }
        self.state = State::Empty;
        let end_pos = ContentRange::end_position_excluding_delimiter(self.buffer.current_pos());
        match self.copy_on_escape.end_string(end_pos) {
            Ok(s) => if key {
                Ok(Event::Key(s))
            } else {
                Ok(Event::String(s))
            },
            Err(e) => Err(e),
        }
    }

    /// Ends the current number and returns it (the input from where it
    /// began); `from_container_end` tells whether a container delimiter
    /// ended it.
    fn extract_number(&mut self, from_container_end: bool) -> (r: Result<Event<'_, '_>, ParseError>)
        requires
            old(self).wf(),
        ensures
            final(self).wf(),
            final(self).input() == old(self).input(),
            final(self).pos() == old(self).pos(),
            final(self).tok() == old(self).tok(),
            final(self).pending() == old(self).pending(),
            final(self).string_start() == old(self).string_start(),
            final(self).scratch_text() == old(self).scratch_text(),
            ({
                let end = spec_number_end(
                    final(self).pos(),
                    from_container_end,
                    final(self).pos() >= final(self).input().len(),
                );
                r matches Ok(ev) ==> ev matches Event::Number(JsonNumber::Borrowed { raw, parsed })
                    && parsed == spec_number_result(raw.spec_bytes())
                    && raw.spec_bytes().len() <= end && raw.spec_bytes() == final(self).input().subrange(
                        end - raw.spec_bytes().len(),
                        end as int,
                    )
            }),
            ({
                let end = spec_number_end(
                    final(self).pos(),
                    from_container_end,
                    final(self).pos() >= final(self).input().len(),
                );
                r matches Ok(Event::Number(JsonNumber::Borrowed { raw, .. })) ==> match old(self).state {
                    State::Number(p) => raw.spec_bytes() == final(self).input().subrange(p as int, end as int),
                    _ => false,
                }
            }),
            r matches Err(e) ==> !(e is TokenizerError) && forall|t: EventToken|
                (t == EventToken::Number || t == EventToken::NumberAndArray || t == EventToken::NumberAndObject)
                    ==> #[trigger] final(self).failed_on(tokenizer::Event::End(t), e),
    {
        match self.state {
            State::Number(start) => {
                self.state = State::Empty;
                let r = parse_number_event(&self.buffer, start, from_container_end);
                proof {
                    let end = spec_number_end(self.pos(), from_container_end, self.pos() >= self.input().len());
                    assert(self.buffer.spec_position() == self.pos());
                    assert(self.buffer.spec_is_empty() == (self.pos() >= self.input().len()));
                    if r is Ok {
                        assert(self.buffer.spec_number_slice(start, end) is Some);
                        assert(self.buffer.spec_number_slice(start, end) == Some(self.input().subrange(start as int, end as int)));
                    }
                }
                r
            },
            _ => Err(ParseError::Unexpected(UnexpectedState::StateMismatch)),
        }
    }

    /// Turns a complete `\uXXXX` escape, just read, into UTF-8 in the
    /// scratch buffer (for a surrogate pair, once its second half is read).
    fn process_unicode_escape_with_collector(&mut self) -> (r: Result<(), ParseError>)
        requires
            old(self).wf(),
        ensures
            final(self).wf(),
            final(self).input() == old(self).input(),
            final(self).pos() == old(self).pos(),
            final(self).tok() == old(self).tok(),
            final(self).pending() == old(self).pending(),
            Self::unicode_done(final(self), old(self), r),
            r matches Err(e) ==> !(e is TokenizerError),
    {
        let current_pos = self.buffer.current_pos();
        let (hex_start, hex_end, _escape_start) = ContentRange::unicode_escape_bounds(current_pos);
        let hex = match self.buffer.slice(hex_start, hex_end) {
            Ok(h) => h,
            Err(_) => return Err(ParseError::Unexpected(UnexpectedState::InvalidSliceBounds)),
        };
        let had_pending_high_surrogate = self.unicode_escape_collector.has_pending_high_surrogate();
        let (utf8, escape_start_pos) = match process_unicode_escape_sequence(
            current_pos,
            &mut self.unicode_escape_collector,
            hex,
        ) {
            Ok(v) => v,
            Err(e) => return Err(e),
        };
        match utf8 {
            Some((bytes, len)) => {
                let utf8_slice = vstd::slice::slice_subrange(bytes.as_slice(), 0, len);
                if had_pending_high_surrogate {
                    let empty: [u8; 0] = [];
                    proof {
                        assert(empty@ =~= Seq::<u8>::empty());
                    }
                    let first = self.copy_on_escape.handle_unicode_escape(escape_start_pos, empty.as_slice());
                    let ghost mid = self.copy_on_escape;
                    if let Err(e) = first {
                        proof {
                            assert(unicode_handled(mid, old(self).copy_on_escape, escape_start_pos, Seq::<u8>::empty(), first));
                        }
                        return Err(e);
                    }
                    let second = self.copy_on_escape.handle_unicode_escape(escape_start_pos + 6, utf8_slice);
                    proof {
                        assert(unicode_handled(mid, old(self).copy_on_escape, escape_start_pos, Seq::<u8>::empty(), first));
                    }
                    if let Err(e) = second {
                        return Err(e);
                    }
                } else {
                    if let Err(e) = self.copy_on_escape.handle_unicode_escape(escape_start_pos, utf8_slice) {
                        return Err(e);
                    }
                }
                Ok(())
            },
            None => Ok(()),
        }
    }

    /// Handles a tokenizer event that does not complete a parser event:
    /// the start of a string, key or number, and escapes.
    fn process_other_event(&mut self, event: tokenizer::Event) -> (r: Result<(), ParseError>)
        requires
            old(self).wf(),
        ensures
            final(self).wf(),
            final(self).input() == old(self).input(),
            final(self).pos() == old(self).pos(),
            final(self).tok() == old(self).tok(),
            final(self).pending() == old(self).pending(),
            Self::other_event_done(final(self), old(self), event, r),
            r matches Err(e) ==> !(e is TokenizerError) && final(self).failed_on(event, e),
    {
        let in_string = match self.state {
            State::String(_) | State::Key(_) => true,
            _ => false,
        };
        match event {
            tokenizer::Event::Begin(EventToken::Key) => {
                let pos = self.buffer.current_pos();
                self.state = State::Key(pos);
                self.copy_on_escape.begin_string(pos);
                Ok(())
            },
            tokenizer::Event::Begin(EventToken::String) => {
                let pos = self.buffer.current_pos();
                self.state = State::String(pos);
                self.copy_on_escape.begin_string(pos);
                Ok(())
            },
            tokenizer::Event::Begin(EventToken::Number)
            | tokenizer::Event::Begin(EventToken::NumberAndArray)
            | tokenizer::Event::Begin(EventToken::NumberAndObject) => {
                let number_start = ContentRange::number_start_from_current(self.buffer.current_pos());
                self.state = State::Number(number_start);
                Ok(())
            },
            tokenizer::Event::Begin(EventToken::EscapeQuote)
            | tokenizer::Event::Begin(EventToken::EscapeBackslash)
            | tokenizer::Event::Begin(EventToken::EscapeSlash)
            | tokenizer::Event::Begin(EventToken::EscapeBackspace)
            | tokenizer::Event::Begin(EventToken::EscapeFormFeed)
            | tokenizer::Event::Begin(EventToken::EscapeNewline)
            | tokenizer::Event::Begin(EventToken::EscapeCarriageReturn)
            | tokenizer::Event::Begin(EventToken::EscapeTab) => {
                let token = match event {
                    tokenizer::Event::Begin(t) => t,
                    _ => EventToken::EscapeQuote,
                };
                let unescaped_char = match EscapeProcessor::process_escape_token(&token) {
                    Ok(c) => c,
                    Err(e) => return Err(e),
                };
                if in_string {
                    let pos = self.buffer.current_pos();
                    if let Err(e) = self.copy_on_escape.handle_escape(pos, unescaped_char) {
                        return Err(e);
                    }
                }
                Ok(())
            },
            tokenizer::Event::Begin(EventToken::UnicodeEscape) => {
                if in_string {
                    self.unicode_escape_collector.reset();
                }
                Ok(())
            },
            tokenizer::Event::End(EventToken::UnicodeEscape) => {
                if in_string {
                    self.process_unicode_escape_with_collector()
                } else {
                    Ok(())
                }
            },
            tokenizer::Event::Uninitialized => Err(ParseError::Unexpected(UnexpectedState::StateMismatch)),
            _ => Ok(()),
        }
    }

    /// Returns the next JSON event or an error if parsing fails.
    /// Parsing continues until `EndDocument` is returned or an error occurs.
    #[verifier::rlimit(100)]
    #[verifier::spinoff_prover]
    pub fn next_event(&mut self) -> (r: Result<Event<'_, '_>, ParseError>)
        requires
            old(self).wf(),
        ensures
            Self::spec_next_event(old(self), final(self), r),
    {
        if self.buffer.is_past_end() {
            return Ok(Event::EndDocument);
        }
        let ghost o_input = self.input();
        let ghost o_pos = self.pos();
        let ghost v0 = self.tok();
        let ghost p0 = self.pending();
        let ghost mut done: Seq<tokenizer::Event> = Seq::empty();
        proof {
            assert(o_input.subrange(o_pos as int, o_pos as int) =~= Seq::<u8>::empty());
            assert(event_kinds(Seq::<(tokenizer::Event, usize)>::empty()) =~= Seq::<tokenizer::Event>::empty());
            assert(done + p0 =~= p0 + Seq::<tokenizer::Event>::empty());
            crate::tokenizer_laws::lemma_wrap_add_zero(v0.total);
        }
        loop
            invariant
                self.wf(),
                self.input() == o_input,
                o_input == old(self).input(),
                o_pos == old(self).pos(),
                v0 == old(self).tok(),
                p0 == old(self).pending(),
                o_pos <= self.pos() <= o_input.len(),
                ({
                    let fed = o_input.subrange(o_pos as int, self.pos() as int);
                    let run = spec_run(v0, Self::max_depth(), fed);
                    &&& run.err is None
                    &&& canon(self.tok()) == canon(run.next)
                    &&& self.tok().total == wrap_add(v0.total, fed.len())
                    &&& done + self.pending() == p0 + event_kinds(run.events)
                }),
                none_complete(done),
                p0.len() > 0 && completes(p0[0]) ==> done.len() == 0 && self.pos() == o_pos && self.pending() == p0,
                ({
                    let evs = spec_run(v0, Self::max_depth(), o_input.subrange(o_pos as int, self.pos() as int)).events;
                    let m = done.len() - p0.len();
                    &&& done.len() < p0.len() ==> evs.len() == 0
                    &&& done.len() >= p0.len() ==> m <= evs.len() && unhandled_at(evs, m, o_pos as int, self.pos() as int)
                    &&& self.text_inv(o_pos as int, evs, m)
                    &&& self.num_inv(o_pos as int, evs, m)
                }),
            decreases 3 * (o_input.len() + 1 - self.pos()) + self.pending().len(),
        {
            if !have_events(&self.parser_state.evts) {
                let ghost before = self.pos();
                let ghost fed = o_input.subrange(o_pos as int, before as int);
                let ghost tk = self.tok();
                let ghost run = spec_run(v0, Self::max_depth(), fed);
                let ghost s_before = *self;
                proof {
                    assert(done.len() == p0.len() + run.events.len());
                }
                proof {
                    if before < o_input.len() {
                        lemma_feed_byte(v0, tk, Self::max_depth(), fed, o_input[before as int]);
                        assert(o_input.subrange(o_pos as int, before + 1) =~= fed.push(o_input[before as int]));
                    }
                    assert(done + Seq::<tokenizer::Event>::empty() =~= done);
                }
                match self.pull_tokenizer_events() {
                    Ok(()) => {},
                    Err(e) => {
                        proof {
                            let all = p0 + event_kinds(spec_run(v0, Self::max_depth(), o_input.subrange(o_pos as int, if self.pos() > o_input.len() { o_input.len() as int } else { self.pos() as int })).events)
                                + if self.pos() > o_input.len() {
                                event_kinds(spec_finish(self.tok()).0)
                            } else {
                                Seq::empty()
                            };
                            assert(done + self.pending() =~= all);
                            assert(all.take(all.len() - self.pending().len()) =~= done);
                            assert(all.skip(all.len() - self.pending().len()) =~= self.pending());
                        }
                        return Err(e);
                    },
                }
                proof {
                    if before < o_input.len() {
                        let byte = o_input[before as int];
                        crate::tokenizer_laws::lemma_run_push(v0, Self::max_depth(), fed, byte);
                        let st = spec_step(run.next, Self::max_depth(), byte, fed.len() as usize);
                        Self::lemma_text_inv_extend(&s_before, o_pos as int, run.events, st.events, done.len() - p0.len());
                        assert(self.text_inv(o_pos as int, run.events + st.events, done.len() - p0.len()));
                        Self::lemma_num_inv_extend(&s_before, o_pos as int, run.events, st.events, done.len() - p0.len());
                        assert(self.num_inv(o_pos as int, run.events + st.events, done.len() - p0.len()));
                    }
                }
                proof {
                    if before < o_input.len() {
                        crate::tokenizer_laws::lemma_wrap_add_step(v0.total, fed.len());
                        let fed2 = o_input.subrange(o_pos as int, self.pos() as int);
                        assert(done + self.pending() =~= p0 + event_kinds(spec_run(v0, Self::max_depth(), fed2).events));
                    }
                }
                if self.buffer.is_past_end() {
                    proof {
                        let all = p0 + event_kinds(run.events) + event_kinds(spec_finish(self.tok()).0);
                        assert(o_input.subrange(o_pos as int, o_input.len() as int) == fed);
                        assert(done + self.pending() =~= all);
                        assert(all.take(all.len() - self.pending().len()) =~= done);
                        assert(all.skip(all.len() - self.pending().len()) =~= self.pending());
                    }
                    return Ok(Event::EndDocument);
                }
            } else {
                let ghost pend = self.pending();
                let taken = take_first_event(&mut self.parser_state.evts);
                let t = match taken {
                    Some(t) => t,
                    None => return Err(ParseError::Unexpected(UnexpectedState::StateMismatch)),
                };
                let ghost fed = o_input.subrange(o_pos as int, self.pos() as int);
                let ghost all = p0 + event_kinds(spec_run(v0, Self::max_depth(), fed).events);
                let ghost evs = spec_run(v0, Self::max_depth(), fed).events;
                let ghost m: int = done.len() - p0.len();
                let ghost c0 = *self;
                proof {
                    if m >= 0 && m < evs.len() {
                        assert((done + pend)[done.len() as int] == pend[0]);
                        assert((p0 + event_kinds(evs))[done.len() as int] == event_kinds(evs)[m]);
                        assert(t == evs[m].0);
                    }
                }
                proof {
                    assert(done.push(t) + self.pending() =~= done + pend);
                    done = done.push(t);
                    assert(all + Seq::<tokenizer::Event>::empty() =~= all);
                    assert(all.take(all.len() - self.pending().len()) =~= done);
                    assert(all.skip(all.len() - self.pending().len()) =~= self.pending());
                    assert(done.drop_last() =~= done.take(done.len() - 1));
                    assert(done.last() == t);
                }
                match process_simple_events(&t) {
                    Some(EventResult::Complete(ev)) => {
                        return Ok(ev);
                    },
                    Some(EventResult::ExtractString) => {
                        proof {
                            if m >= 0 && m < evs.len() {
                                Self::lemma_text_at_end(&c0, o_pos as int, evs, m);
                                assert(self.pos() == o_pos + evs[m].1 + 1);
                                assert(done.len() - 1 - p0.len() == m);
                            }
                        }
                        let r = self.extract_content(false);
                        proof {
                            assert(t == tokenizer::Event::End(EventToken::String));
                        }
                        return r;
                    },
                    Some(EventResult::ExtractKey) => {
                        proof {
                            if m >= 0 && m < evs.len() {
                                Self::lemma_text_at_end(&c0, o_pos as int, evs, m);
                                assert(self.pos() == o_pos + evs[m].1 + 1);
                                assert(done.len() - 1 - p0.len() == m);
                            }
                        }
                        let r = self.extract_content(true);
                        proof {
                            assert(t == tokenizer::Event::End(EventToken::Key));
                        }
                        return r;
                    },
                    Some(EventResult::ExtractNumber(from_container_end)) => {
                        let r = self.extract_number(from_container_end);
                        proof {
                            assert(done.len() - 1 - p0.len() == m);
                            assert(t == tokenizer::Event::End(EventToken::Number) || t == tokenizer::Event::End(
                                EventToken::NumberAndArray,
                            ) || t == tokenizer::Event::End(EventToken::NumberAndObject));
                        }
                        return r;
                    },
                    Some(EventResult::Continue) => {},
                    None => {
                        let rr = self.process_other_event(t);
                        if let Err(e) = rr {
                            return Err(e);
                        }
                        proof {
                            if m >= 0 && m < evs.len() {
                                Self::lemma_text_inv_step(&c0, &*self, o_pos as int, evs, m, rr);
                                Self::lemma_num_inv_step(&c0, &*self, o_pos as int, evs, m, rr);
                            }
                            if m < 0 {
                                assert(last_number_open(evs, m + 1) == -1);
                            }
                        }
                    },
                }
                proof {
                    assert forall|i: int| 0 <= i < done.len() implies !completes(#[trigger] done[i]) by {
                        if i < done.len() - 1 {
                            assert(done[i] == done.drop_last()[i]);
                        }
                    }
                }
            }
        }
    }

    /// Iterator-like method: `None` once the document has ended, else the
    /// result of [`PullParser::next_event`].
    pub fn next(&mut self) -> (r: Option<Result<Event<'_, '_>, ParseError>>)
        requires
            old(self).wf(),
        ensures
            match r {
                None => Self::spec_next_event(old(self), final(self), Ok(Event::EndDocument)),
                Some(x) => Self::spec_next_event(old(self), final(self), x) && !(x matches Ok(Event::EndDocument)),
            },
    {
        match self.next_event() {
            Ok(Event::EndDocument) => None,
            other => Some(other),
        }
    }
}

} // verus!

//! Event handling shared by the parsers: the two-slot store of tokenizer
//! events, and the mapping of tokenizer events to parser events.

use vstd::prelude::*;

use crate::bitstack::{BitBucket, DepthCounter};
use crate::shared::{Event, ParserState};
use crate::tokenizer::{self, EventToken, Tokenizer};

verus! {

/// The events waiting in the store, first slot first.
pub open spec fn pending_events(evts: [Option<tokenizer::Event>; 2]) -> Seq<tokenizer::Event> {
    (match evts[0] {
        Some(e) => seq![e],
        None => Seq::empty(),
    }) + (match evts[1] {
        Some(e) => seq![e],
        None => Seq::empty(),
    })
}

/// Empties the event store.
pub fn clear_events(event_storage: &mut [Option<tokenizer::Event>; 2])
    ensures
        final(event_storage)@ == seq![None::<tokenizer::Event>, None::<tokenizer::Event>],
{
    event_storage[0] = None;
    event_storage[1] = None;
    proof {
        assert(event_storage@ =~= seq![None::<tokenizer::Event>, None::<tokenizer::Event>]);
    }
}

/// The store's two slots after storing `e`: it takes the first empty
/// slot; with no empty slot it is dropped.
pub open spec fn store_one(
    slots: (Option<tokenizer::Event>, Option<tokenizer::Event>),
    e: tokenizer::Event,
) -> (Option<tokenizer::Event>, Option<tokenizer::Event>) {
    if slots.0 is None {
        (Some(e), slots.1)
    } else if slots.1 is None {
        (slots.0, Some(e))
    } else {
        slots
    }
}

/// The store's two slots after storing each of `events` in turn (their
/// positions are ignored).
pub open spec fn store_all(
    slots: (Option<tokenizer::Event>, Option<tokenizer::Event>),
    events: Seq<(tokenizer::Event, usize)>,
) -> (Option<tokenizer::Event>, Option<tokenizer::Event>)
    decreases events.len(),
{
    if events.len() == 0 {
        slots
    } else {
        store_one(store_all(slots, events.drop_last()), events.last().0)
    }
}

/// Stores tokenizer events as the tokenizer's callback does: each event
/// takes the first empty slot; an event that finds no empty slot is dropped.
pub fn create_tokenizer_callback(
    event_storage: &mut [Option<tokenizer::Event>; 2],
    events: &Vec<(tokenizer::Event, usize)>,
)
    ensures
        (final(event_storage)[0], final(event_storage)[1]) == store_all(
            (old(event_storage)[0], old(event_storage)[1]),
            events@,
        ),
        old(event_storage)@ == seq![None::<tokenizer::Event>, None::<tokenizer::Event>] && events@.len() <= 2
            ==> pending_events(*final(event_storage)) == events@.map_values(|p: (tokenizer::Event, usize)| p.0),
{
    let ghost kinds = events@.map_values(|p: (tokenizer::Event, usize)| p.0);
    let mut i: usize = 0;
    while i < events.len()
        invariant
            i <= events@.len(),
            kinds == events@.map_values(|p: (tokenizer::Event, usize)| p.0),
            (event_storage[0], event_storage[1]) == store_all(
                (old(event_storage)[0], old(event_storage)[1]),
                events@.take(i as int),
            ),
            old(event_storage)@ == seq![None::<tokenizer::Event>, None::<tokenizer::Event>] && events@.len() <= 2
                ==> pending_events(*event_storage) == kinds.take(i as int) && (i < 2 ==> event_storage[i as int]
                is None) && (i == 0 ==> event_storage[1] is None),
        decreases events@.len() - i,
    {
        let (event, _len) = events[i];
        if event_storage[0].is_none() {
            event_storage[0] = Some(event);
        } else if event_storage[1].is_none() {
            event_storage[1] = Some(event);
        }
        proof {
            assert(events@.take(i + 1).drop_last() =~= events@.take(i as int));
            if old(event_storage)@ == seq![None::<tokenizer::Event>, None::<tokenizer::Event>] && events@.len() <= 2 {
                assert(kinds.take(i + 1) =~= kinds.take(i as int).push(event));
                assert(pending_events(*event_storage) =~= kinds.take(i + 1));
            }
        }
        i = i + 1;
    }
    proof {
        assert(kinds.take(events@.len() as int) =~= kinds);
        assert(events@.take(events@.len() as int) =~= events@);
    }
}

/// Whether the store holds an event.
pub fn have_events(event_storage: &[Option<tokenizer::Event>; 2]) -> (r: bool)
    ensures
        r == (pending_events(*event_storage).len() > 0),
{
    event_storage[0].is_some() || event_storage[1].is_some()
}

/// Takes the first stored event out of the store.
pub fn take_first_event(event_storage: &mut [Option<tokenizer::Event>; 2]) -> (r: Option<tokenizer::Event>)
    ensures
        pending_events(*old(event_storage)).len() == 0 ==> r is None && *final(event_storage) == *old(event_storage),
        pending_events(*old(event_storage)).len() > 0 ==> r == Some(pending_events(*old(event_storage))[0])
            && pending_events(*final(event_storage)) == pending_events(*old(event_storage)).drop_first(),
        old(event_storage)[0] is Some ==> r == old(event_storage)[0] && final(event_storage)[0] is None
            && final(event_storage)[1] == old(event_storage)[1],
        old(event_storage)[0] is None && old(event_storage)[1] is Some ==> r == old(event_storage)[1]
            && final(event_storage)[0] is None && final(event_storage)[1] is None,
{
    if event_storage[0].is_some() {
        let e = event_storage[0];
        event_storage[0] = None;
        proof {
            assert(pending_events(*event_storage) =~= pending_events(*old(event_storage)).drop_first());
        }
        e
    } else if event_storage[1].is_some() {
        let e = event_storage[1];
        event_storage[1] = None;
        proof {
            assert(pending_events(*event_storage) =~= pending_events(*old(event_storage)).drop_first());
        }
        e
    } else {
        None
    }
}

/// Result of processing a tokenizer event
#[derive(Debug)]
pub enum EventResult<'a, 'b> {
    /// Event processing is complete, return this event to the user
    Complete(Event<'a, 'b>),
    /// Continue processing more tokenizer events
    Continue,
    /// Extract string content (delegate to parser-specific logic)
    ExtractString,
    /// Extract key content (delegate to parser-specific logic)
    ExtractKey,
    /// Extract number content; the flag tells whether the number was
    /// terminated by a container delimiter
    ExtractNumber(bool),
}

/// What the parsers make of a tokenizer event that completes something: a
/// finished parser event, or the content to extract. `None` for the events
/// that only begin something or belong to escapes.
pub open spec fn spec_simple_event(event: tokenizer::Event) -> Option<EventResult<'static, 'static>> {
    match event {
        tokenizer::Event::ObjectStart => Some(EventResult::Complete(Event::StartObject)),
        tokenizer::Event::ObjectEnd => Some(EventResult::Complete(Event::EndObject)),
        tokenizer::Event::ArrayStart => Some(EventResult::Complete(Event::StartArray)),
        tokenizer::Event::ArrayEnd => Some(EventResult::Complete(Event::EndArray)),
        tokenizer::Event::End(EventToken::True) => Some(EventResult::Complete(Event::Bool(true))),
        tokenizer::Event::End(EventToken::False) => Some(EventResult::Complete(Event::Bool(false))),
        tokenizer::Event::End(EventToken::Null) => Some(EventResult::Complete(Event::Null)),
        tokenizer::Event::End(EventToken::String) => Some(EventResult::ExtractString),
        tokenizer::Event::End(EventToken::Key) => Some(EventResult::ExtractKey),
        tokenizer::Event::End(EventToken::Number) => Some(EventResult::ExtractNumber(false)),
        tokenizer::Event::End(EventToken::NumberAndArray) => Some(EventResult::ExtractNumber(true)),
        tokenizer::Event::End(EventToken::NumberAndObject) => Some(EventResult::ExtractNumber(true)),
        _ => None,
    }
}

/// Maps container, literal and content-end events to their results.
pub fn process_simple_events(event: &tokenizer::Event) -> (r: Option<EventResult<'static, 'static>>)
    ensures
        r == spec_simple_event(*event),
{
    match event {
        tokenizer::Event::ObjectStart => Some(EventResult::Complete(Event::StartObject)),
        tokenizer::Event::ObjectEnd => Some(EventResult::Complete(Event::EndObject)),
        tokenizer::Event::ArrayStart => Some(EventResult::Complete(Event::StartArray)),
        tokenizer::Event::ArrayEnd => Some(EventResult::Complete(Event::EndArray)),
        tokenizer::Event::End(EventToken::True) => Some(EventResult::Complete(Event::Bool(true))),
        tokenizer::Event::End(EventToken::False) => Some(EventResult::Complete(Event::Bool(false))),
        tokenizer::Event::End(EventToken::Null) => Some(EventResult::Complete(Event::Null)),
        tokenizer::Event::End(EventToken::String) => Some(EventResult::ExtractString),
        tokenizer::Event::End(EventToken::Key) => Some(EventResult::ExtractKey),
        tokenizer::Event::End(EventToken::Number) => Some(EventResult::ExtractNumber(false)),
        tokenizer::Event::End(EventToken::NumberAndArray) => Some(EventResult::ExtractNumber(true)),
        tokenizer::Event::End(EventToken::NumberAndObject) => Some(EventResult::ExtractNumber(true)),
        _ => None,
    }
}

/// Enum to specify when escape sequences should be processed
#[derive(Debug, Clone, Copy, PartialEq, Eq, Structural)]
pub enum EscapeTiming {
    /// Process simple escape sequences on Begin events (slice input)
    OnBegin,
    /// Process simple escape sequences on End events (stream input)
    OnEnd,
}

/// The state the parsers share: the tokenizer and the event store.
pub struct ParserCore<T: BitBucket, C: DepthCounter> {
    /// The tokenizer that processes JSON tokens
    pub tokenizer: Tokenizer<T, C>,
    /// Parser state and event storage
    pub parser_state: ParserState,
    /// Whether the parser is inside an escape sequence
    pub in_escape_sequence: bool,
    /// Whether this parser handles chunked input (running out of input then
    /// asks for more instead of finishing the document)
    pub handles_chunked_input: bool,
}

impl<T: BitBucket, C: DepthCounter> ParserCore<T, C> {
    /// Create a new ParserCore for non-chunked parsers
    pub fn new() -> (r: Self)
        ensures
            r.tokenizer.view() == tokenizer::initial_view(T::capacity()),
            pending_events(r.parser_state.evts).len() == 0,
            !r.in_escape_sequence,
            !r.handles_chunked_input,
    {
        Self { tokenizer: Tokenizer::new(), parser_state: ParserState::new(), in_escape_sequence: false, handles_chunked_input: false }
    }

    /// Create a new ParserCore for chunked parsers
    pub fn new_chunked() -> (r: Self)
        ensures
            r.tokenizer.view() == tokenizer::initial_view(T::capacity()),
            pending_events(r.parser_state.evts).len() == 0,
            !r.in_escape_sequence,
            r.handles_chunked_input,
    {
        Self { tokenizer: Tokenizer::new(), parser_state: ParserState::new(), in_escape_sequence: false, handles_chunked_input: true }
    }
}

} // verus!

//! A SAX-style JSON push parser: the input comes in chunks, and the events
//! go to a handler.

use vstd::prelude::*;

use crate::bitstack::{BitBucket, BitStackConfig, DepthCounter};
use crate::event_processor::{process_simple_events, spec_simple_event, EventResult, ParserCore};
use crate::json_number::JsonNumber;
use crate::parse_error::{ParseError, UnexpectedState};
use crate::push_content_builder::{PushChunkExtractor, PushContentBuilder, PushParserHandler, SEG_IN_ESCAPE};
use crate::shared::{event_record, sat_sub, Event, EventTag, State};
use vstd::utf8::valid_utf8;
use crate::stream_buffer::{spec_stream_error, StreamBufferError};
use crate::tokenizer::{self, initial_view, spec_finish, spec_run, wrap_add, EventToken, TokView};
use crate::tokenizer_laws::{canon, event_kinds, law_chunking, lemma_run_canon};

verus! {

/// Every event of a chunk lies within it.
proof fn lemma_run_positions(v: TokView, dmax: nat, data: Seq<u8>)
    ensures
        forall|i: int|
            0 <= i < spec_run(v, dmax, data).events.len() ==> (#[trigger] spec_run(v, dmax, data).events[i]).1
                < data.len(),
    decreases data.len(),
{
    if data.len() > 0 {
        let prev = spec_run(v, dmax, data.drop_last());
        lemma_run_positions(v, dmax, data.drop_last());
        if prev.err is None {
            reveal(tokenizer::spec_step);
            let o = tokenizer::spec_step(prev.next, dmax, data.last(), (data.len() - 1) as usize);
            let all = spec_run(v, dmax, data).events;
            assert forall|i: int| 0 <= i < all.len() implies (#[trigger] all[i]).1 < data.len() by {
                if i >= prev.events.len() {
                    assert(all[i] == o.events[i - prev.events.len()]);
                }
            }
        }
    }
}

/// The kind of parser event that the tokenizer event `e` completes, if
/// it completes one.
pub open spec fn completed_tag(e: tokenizer::Event) -> Seq<EventTag> {
    match spec_simple_event(e) {
        Some(EventResult::Complete(ev)) => seq![event_record(ev).0],
        Some(EventResult::ExtractString) => seq![EventTag::String],
        Some(EventResult::ExtractKey) => seq![EventTag::Key],
        Some(EventResult::ExtractNumber(_)) => seq![EventTag::Number],
        _ => Seq::empty(),
    }
}

/// The kinds of parser events that the tokenizer events `evs` complete, in
/// order.
pub open spec fn completed_tags(evs: Seq<(tokenizer::Event, usize)>) -> Seq<EventTag>
    decreases evs.len(),
{
    if evs.len() == 0 {
        Seq::empty()
    } else {
        completed_tags(evs.drop_last()) + completed_tag(evs.last().0)
    }
}

/// A tokenizer event that only begins something (a key, string, number
/// or literal): it completes no parser event and needs no scratch space.
pub open spec fn quiet_event(e: tokenizer::Event) -> bool {
    match e {
        tokenizer::Event::Begin(EventToken::Key)
        | tokenizer::Event::Begin(EventToken::String)
        | tokenizer::Event::Begin(EventToken::Number)
        | tokenizer::Event::Begin(EventToken::NumberAndArray)
        | tokenizer::Event::Begin(EventToken::NumberAndObject)
        | tokenizer::Event::Begin(EventToken::True)
        | tokenizer::Event::Begin(EventToken::False)
        | tokenizer::Event::Begin(EventToken::Null) => true,
        _ => false,
    }
}

/// Every event of `evs` only begins something (see [`quiet_event`]).
pub open spec fn all_quiet(evs: Seq<(tokenizer::Event, usize)>) -> bool {
    forall|j: int| 0 <= j < evs.len() ==> quiet_event(#[trigger] evs[j].0)
}

/// A tokenizer event that completes a parser event with nothing to
/// extract (a container, a literal).
pub open spec fn plain_complete(e: tokenizer::Event) -> bool {
    spec_simple_event(e) matches Some(EventResult::Complete(_))
}

/// Every event of `evs` completes a parser event with nothing to extract.
pub open spec fn all_plain(evs: Seq<(tokenizer::Event, usize)>) -> bool {
    forall|j: int| 0 <= j < evs.len() ==> plain_complete(#[trigger] evs[j].0)
}

/// The kinds of a sequence of received events.
pub open spec fn record_tags(recs: Seq<(EventTag, Seq<u8>, bool)>) -> Seq<EventTag> {
    recs.map_values(|x: (EventTag, Seq<u8>, bool)| x.0)
}

proof fn lemma_completed_tags_kinds(x: Seq<(tokenizer::Event, usize)>, y: Seq<(tokenizer::Event, usize)>)
    requires
        event_kinds(x) == event_kinds(y),
    ensures
        completed_tags(x) == completed_tags(y),
    decreases x.len(),
{
    assert(x.len() == event_kinds(x).len() && y.len() == event_kinds(y).len());
    if x.len() > 0 {
        assert(event_kinds(x.drop_last()) =~= event_kinds(x).drop_last());
        assert(event_kinds(y.drop_last()) =~= event_kinds(y).drop_last());
        assert(x.last().0 == event_kinds(x)[x.len() - 1]);
        assert(y.last().0 == event_kinds(y)[y.len() - 1]);
        lemma_completed_tags_kinds(x.drop_last(), y.drop_last());
    }
}

proof fn lemma_completed_tags_concat(x: Seq<(tokenizer::Event, usize)>, y: Seq<(tokenizer::Event, usize)>)
    ensures
        completed_tags(x + y) == completed_tags(x) + completed_tags(y),
    decreases y.len(),
{
    if y.len() == 0 {
        assert(x + y =~= x);
        assert(completed_tags(x) + Seq::<EventTag>::empty() =~= completed_tags(x));
    } else {
        assert((x + y).drop_last() =~= x + y.drop_last());
        assert((x + y).last() == y.last());
        lemma_completed_tags_concat(x, y.drop_last());
        assert(completed_tags(x) + completed_tags(y.drop_last()) + completed_tag(y.last().0) =~= completed_tags(x) + (
        completed_tags(y.drop_last()) + completed_tag(y.last().0)));
    }
}

/// Chunking law for the push parser: when writing `a` and then `b`
/// succeeds, and so does writing `a + b` at once from the same parser, the
/// handler receives events of the same kinds, in the same order, either way.
pub proof fn law_push_chunking<'s, H, C: BitStackConfig, E>(
    p0: PushParser<'s, H, C>,
    p1: PushParser<'s, H, C>,
    p2: PushParser<'s, H, C>,
    q: PushParser<'s, H, C>,
    a: Seq<u8>,
    b: Seq<u8>,
)
    where
        H: for <'a, 'b>PushParserHandler<'a, 'b, E>,
    requires
        PushParser::write_done(&p0, &p1, a, Ok::<(), PushParseError<E>>(())),
        PushParser::write_done(&p1, &p2, b, Ok::<(), PushParseError<E>>(())),
        PushParser::write_done(&p0, &q, a + b, Ok::<(), PushParseError<E>>(())),
    ensures
        record_tags(p2.received().skip(p0.received().len() as int)) == record_tags(
            q.received().skip(p0.received().len() as int),
        ),
{
    let dmax = C::Counter::max_count();
    let v0 = p0.tokenizer_view();
    let ra = spec_run(v0, dmax, a);
    let rb = spec_run(ra.next, dmax, b);
    let rb1 = spec_run(p1.tokenizer_view(), dmax, b);
    let whole = spec_run(v0, dmax, a + b);
    assert(ra.err is None);
    assert(canon(p1.tokenizer_view()) == canon(ra.next));
    lemma_run_canon(p1.tokenizer_view(), ra.next, dmax, b);
    law_chunking(v0, dmax, a, b);
    let z = ra.events + rb1.events;
    assert(event_kinds(z) =~= event_kinds(ra.events) + event_kinds(rb1.events));
    lemma_completed_tags_kinds(whole.events, z);
    lemma_completed_tags_concat(ra.events, rb1.events);
    let l0 = p0.received().len() as int;
    let l1 = p1.received().len() as int;
    assert(p2.received().skip(l0) =~= p1.received().skip(l0) + p2.received().skip(l1));
    assert(record_tags(p1.received().skip(l0) + p2.received().skip(l1)) =~= record_tags(p1.received().skip(l0))
        + record_tags(p2.received().skip(l1)));
}

/// A SAX-style JSON push parser: `write` feeds it chunks of input, and each
/// complete event goes to the handler.
pub struct PushParser<'scratch, H, C: BitStackConfig> {
    extractor: PushContentBuilder<'scratch>,
    handler: H,
    core: ParserCore<C::Bucket, C::Counter>,
    received: Ghost<Seq<(EventTag, Seq<u8>, bool)>>,
}

impl<'scratch, H, C: BitStackConfig> PushParser<'scratch, H, C> {
    /// The tokenizer's state.
    pub closed spec fn tokenizer_view(&self) -> TokView {
        self.core.tokenizer.view()
    }

    /// How many bytes the chunks written so far hold.
    pub closed spec fn written(&self) -> usize {
        self.extractor.offset()
    }

    /// The content (string, key or number) in progress.
    pub closed spec fn content_state(&self) -> State {
        self.extractor.state()
    }

    /// The events handed to the handler so far, in order, as values (see
    /// [`event_record`]).
    pub closed spec fn received(&self) -> Seq<(EventTag, Seq<u8>, bool)> {
        self.received@
    }

    /// The handler.
    pub closed spec fn handler(&self) -> H {
        self.handler
    }

    /// Whether the parser can take a chunk that only continues what is in
    /// progress: nothing is, or a string, key or number is with no
    /// `\\uXXXX` escape underway, and its text so far waits in an escape
    /// or was kept up to the end of the chunks written.
    pub closed spec fn ready_for_chunk(&self) -> bool {
        ||| self.extractor.state() == State::Empty
        ||| self.extractor.hex_start() is None && (self.extractor.seg() == SEG_IN_ESCAPE || self.extractor.seg()
            == self.extractor.offset())
    }

    /// The positions the parser holds leave room for one more byte.
    pub closed spec fn wf(&self) -> bool {
        self.extractor.wf()
    }

    /// Creates a push parser with `handler` and the scratch `buffer`.
    pub fn new(handler: H, buffer: &'scratch mut [u8]) -> (r: Self)
        ensures
            r.wf(),
            r.tokenizer_view() == initial_view(C::Bucket::capacity()),
            r.written() == 0,
            r.content_state() == State::Empty,
            r.handler() == handler,
            r.received().len() == 0,
    {
        Self {
            extractor: PushContentBuilder::new(buffer),
            handler,
            core: ParserCore::new_chunked(),
            received: Ghost(Seq::empty()),
        }
    }

    /// What [`PushParser::write`] of `data` does, from parser `o` to `f`,
    /// returning `r`: the tokenizer takes all of `data`; its error (if any)
    /// is reported; the events handed to the handler are appended to what it
    /// received, and on success their kinds are those the chunk's events
    /// complete; written with no content in progress, a chunk without
    /// events succeeds, and so does one whose events only begin something
    /// unless the scratch buffer is full. The handler keeps the kind of the
    /// last event recorded (and is untouched when none was). A parse error
    /// other than the tokenizer's needs content in progress or an event that
    /// is more than a container or a literal.
    pub open spec fn write_done<E>(o: &Self, f: &Self, data: Seq<u8>, r: Result<(), PushParseError<E>>) -> bool where
        H: for <'a, 'b>PushParserHandler<'a, 'b, E>,
    {
        let run = spec_run(o.tokenizer_view(), C::Counter::max_count(), data);
        &&& f.tokenizer_view() == match run.err {
            None => TokView { total: wrap_add(o.tokenizer_view().total, data.len()), ..run.next },
            Some(_) => run.next,
        }
        &&& run.err is Some ==> r is Err
        &&& r matches Err(PushParseError::Parse(ParseError::TokenizerError(e))) ==> run.err == Some(e)
        &&& r is Ok ==> f.wf() && f.written() == o.written() + data.len()
        &&& run.err is None && run.events.len() == 0 && o.content_state() == State::Empty ==> r is Ok
        &&& o.received().len() <= f.received().len()
        &&& f.received().take(o.received().len() as int) == o.received()
        &&& (r matches Err(PushParseError::Parse(e)) && !(e is TokenizerError)) ==> o.content_state() != State::Empty
            || !all_plain(run.events)
        &&& f.received().len() > o.received().len() ==> f.handler().last_event_kind() == Some(
            f.received().last().0,
        )
        &&& f.received().len() == o.received().len() ==> f.handler() == o.handler()
        &&& r is Ok ==> record_tags(f.received().skip(o.received().len() as int))
            == completed_tags(run.events)
        &&& run.err is None && all_quiet(run.events) && o.content_state() == State::Empty ==> (r is Ok
            || r == Err::<(), PushParseError<E>>(PushParseError::Parse(ParseError::ScratchBufferFull)))
        &&& run.err is None && all_quiet(run.events) && o.ready_for_chunk() ==> (r is Ok || r == Err::<
            (),
            PushParseError<E>,
        >(PushParseError::Parse(ParseError::ScratchBufferFull))) && (r is Ok ==> f.ready_for_chunk())
    }

    /// Feeds the chunk `data`: the tokenizer takes all of it; its events are
    /// handled in order until one fails. The error of the first event that
    /// fails comes first, then the tokenizer's error. A string or number
    /// still in progress at the end of the chunk is kept in the scratch
    /// buffer, so `data` is needed only during the call.
    pub fn write<E>(&mut self, data: &[u8]) -> (r: Result<(), PushParseError<E>>) where
        H: for <'a, 'b>PushParserHandler<'a, 'b, E>,
        E: From<ParseError>,

        requires
            old(self).wf(),
            old(self).written() + data.len() < usize::MAX,
        ensures
            Self::write_done(old(self), final(self), data@, r),
    {
        self.extractor.apply_unescaped_reset_if_queued();
        let mut events: Vec<(tokenizer::Event, usize)> = Vec::new();
        let tokenizer_result = self.core.tokenizer.parse_chunk(data, &mut events);
        proof {
            lemma_run_positions(old(self).tokenizer_view(), C::Counter::max_count(), data@);
            assert(self.received@.take(self.received@.len() as int) =~= self.received@);
            assert(self.received@.skip(self.received@.len() as int) =~= Seq::<(EventTag, Seq<u8>, bool)>::empty());
            assert(record_tags(Seq::<(EventTag, Seq<u8>, bool)>::empty()) =~= Seq::<EventTag>::empty());
            assert(events@.take(0) =~= Seq::<(tokenizer::Event, usize)>::empty());
        }
        let mut i: usize = 0;
        while i < events.len()
            invariant
                0 <= i <= events.len(),
                self.extractor.wf(),
                self.extractor.offset() == old(self).extractor.offset(),
                i == 0 ==> self.extractor.state() == old(self).extractor.state(),
                self.extractor.offset() + data.len() < usize::MAX,
                self.tokenizer_view() == (match spec_run(old(self).tokenizer_view(), C::Counter::max_count(), data@).err {
                    None => TokView {
                        total: wrap_add(old(self).tokenizer_view().total, data.len() as nat),
                        ..spec_run(old(self).tokenizer_view(), C::Counter::max_count(), data@).next
                    },
                    Some(_) => spec_run(old(self).tokenizer_view(), C::Counter::max_count(), data@).next,
                }),
                events@ == spec_run(old(self).tokenizer_view(), C::Counter::max_count(), data@).events,
                old(self).received@.len() <= self.received@.len(),
                (old(self).extractor.state() == State::Empty || old(self).ready_for_chunk()) && all_quiet(
                    events@.take(i as int),
                ) ==> (self.extractor.state() == State::Empty || (self.extractor.hex_start() is None && (
                self.extractor.seg() == SEG_IN_ESCAPE || self.extractor.offset() <= self.extractor.seg()
                    <= self.extractor.offset() + data.len()))),
                self.received@.take(old(self).received@.len() as int) == old(self).received@,
                self.received@.len() > old(self).received@.len() ==> self.handler.last_event_kind() == Some(
                    self.received@.last().0,
                ),
                self.received@.len() == old(self).received@.len() ==> self.handler == old(self).handler,
                old(self).extractor.state() == State::Empty && all_plain(events@.take(i as int))
                    ==> self.extractor.state() == State::Empty,
                record_tags(self.received@.skip(old(self).received@.len() as int)) == completed_tags(
                    events@.take(i as int),
                ),
                forall|j: int| 0 <= j < events@.len() ==> (#[trigger] events@[j]).1 < data.len(),
                tokenizer_result == match spec_run(old(self).tokenizer_view(), C::Counter::max_count(), data@).err {
                    None => Ok::<usize, tokenizer::Error>(self.tokenizer_view().total),
                    Some(e) => Err::<usize, tokenizer::Error>(e),
                },
            decreases events.len() - i,
        {
            let (event, rel_pos) = events[i];
            let ghost before = self.received@;
            let mut view = PushChunkExtractor::new(&mut self.extractor, data);
            let ghost v0 = view;
            let step = drive_event(&mut view, &mut self.handler, &mut self.received, event, rel_pos);
            proof {
                let n = old(self).received@.len() as int;
                let d = delivered_record(v0, event, rel_pos);
                assert(self.received@ == before + d);
                assert(self.received@.take(n) =~= before.take(n));
                if step is Ok {
                    assert(record_tags(d) =~= completed_tag(event));
                    assert(events@.take(i + 1).drop_last() =~= events@.take(i as int));
                    assert(self.received@.skip(n) =~= before.skip(n) + d);
                    assert(record_tags(before.skip(n) + d) =~= record_tags(before.skip(n)) + record_tags(d));
                }
            }
            proof {
                if all_plain(events@.take(i + 1)) {
                    assert(events@.take(i + 1)[i as int] == events@[i as int]);
                    assert(plain_complete(events@[i as int].0));
                    assert forall|j: int| 0 <= j < events@.take(i as int).len() implies plain_complete(
                        #[trigger] events@.take(i as int)[j].0,
                    ) by {
                        assert(events@.take(i + 1)[j] == events@.take(i as int)[j]);
                    }
                }
                if step matches Err(PushParseError::Parse(_)) {
                    assert(!plain_complete(event));
                    assert(events@[i as int].0 == event);
                    assert(!all_plain(events@));
                }
            }
            proof {
                if all_quiet(events@.take(i + 1)) {
                    assert(events@.take(i + 1)[i as int] == events@[i as int]);
                    assert(quiet_event(events@[i as int].0));
                    assert forall|j: int| 0 <= j < events@.take(i as int).len() implies quiet_event(
                        #[trigger] events@.take(i as int)[j].0,
                    ) by {
                        assert(events@.take(i + 1)[j] == events@.take(i as int)[j]);
                    }
                }
            }
            if let Err(e) = step {
                return Err(e);
            }
            i = i + 1;
        }
        proof {
            assert(events@.take(events@.len() as int) =~= events@);
        }
        if let Err(e) = tokenizer_result {
            return Err(PushParseError::Parse(ParseError::TokenizerError(e)));
        }
        let mut view = PushChunkExtractor::new(&mut self.extractor, data);
        if let Err(e) = view.chunk_end_flush() {
            return Err(PushParseError::Parse(e));
        }
        self.extractor.add_position_offset(data.len());
        Ok(())
    }

    /// Ends the input: the document must be complete, and no string or
    /// number may be left open. The handler then gets `EndDocument` and is
    /// handed back.
    pub fn finish<E>(self) -> (r: Result<H, PushParseError<E>>) where H: for <'a, 'b>PushParserHandler<'a, 'b, E>
        ensures
            match spec_finish(self.tokenizer_view()).1 {
                Err(e) => r == Err::<H, PushParseError<E>>(PushParseError::Parse(ParseError::TokenizerError(e))),
                Ok(_) => if self.content_state() != State::Empty {
                    r == Err::<H, PushParseError<E>>(PushParseError::Parse(ParseError::EndOfData))
                } else {
                    &&& (r is Ok || r matches Err(PushParseError::Handler(_)))
                    &&& (r matches Ok(h) ==> h.last_event_kind() == Some(EventTag::EndDocument))
                },
            },
    {
        let mut parser = self;
        let mut events: Vec<(tokenizer::Event, usize)> = Vec::new();
        if let Err(e) = parser.core.tokenizer.finish(&mut events) {
            return Err(PushParseError::Parse(ParseError::TokenizerError(e)));
        }
        let open = match parser.extractor.parser_state() {
            State::Empty => false,
            _ => true,
        };
        if open {
            return Err(PushParseError::Parse(ParseError::EndOfData));
        }
        match handler_result(parser.handler.handle_event(Event::EndDocument)) {
            Ok(()) => Ok(parser.handler),
            Err(e) => Err(e),
        }
    }
}

/// What the handler is handed for the tokenizer event `event` at `rel_pos`
/// in the chunk, with the content state `view`: the parser event that
/// `event` completes (for the end of a string, key or number, its text as
/// it stands then, see [`PushChunkExtractor::ending_text`]), or nothing
/// when it completes none or its content cannot be had.
spec fn delivered_record(view: PushChunkExtractor<'_, '_, '_>, event: tokenizer::Event, rel_pos: usize) -> Seq<
    (EventTag, Seq<u8>, bool),
> {
    let pos = (view.content().offset() + rel_pos) as usize;
    match spec_simple_event(event) {
        Some(EventResult::Complete(ev)) => seq![event_record(ev)],
        Some(EventResult::ExtractString) | Some(EventResult::ExtractKey) => {
            let key = spec_simple_event(event) == Some(EventResult::<'static, 'static>::ExtractKey);
            let start = match view.content().state() {
                State::Key(p) if key => Some(p),
                State::String(p) if !key => Some(p),
                _ => None,
            };
            match start {
                Some(p) => match view.ending_text(p, pos) {
                    Some(t) => if !view.content().pending_surrogate() && valid_utf8(t) {
                        seq![(if key {
                            EventTag::Key
                        } else {
                            EventTag::String
                        }, t, view.content().in_scratch())]
                    } else {
                        Seq::empty()
                    },
                    None => Seq::empty(),
                },
                None => Seq::empty(),
            }
        },
        Some(EventResult::ExtractNumber(_)) => match view.content().state() {
            State::Number(p) => match view.ending_text(p, pos) {
                Some(t) => if valid_utf8(t) {
                    seq![(EventTag::Number, t, false)]
                } else {
                    Seq::empty()
                },
                None => Seq::empty(),
            },
            _ => Seq::empty(),
        },
        _ => Seq::empty(),
    }
}

/// Handles one tokenizer event at `rel_pos` in the chunk: a complete event
/// goes to the handler; the others move the content state on.
fn drive_event<H, E>(
    view: &mut PushChunkExtractor<'_, '_, '_>,
    handler: &mut H,
    received: &mut Ghost<Seq<(EventTag, Seq<u8>, bool)>>,
    event: tokenizer::Event,
    rel_pos: usize,
) -> (r: Result<(), PushParseError<E>>) where H: for <'a, 'b>PushParserHandler<'a, 'b, E>
    requires
        old(view).wf(),
        rel_pos < old(view).bytes().len(),
    ensures
        final(view).wf(),
        final(view).bytes() == old(view).bytes(),
        final(view).content().offset() == old(view).content().offset(),
        *final(final(view).builder) == *final(old(view).builder),
        !(r matches Err(PushParseError::Parse(ParseError::TokenizerError(_)))),
        final(view).content().position() == old(view).content().offset() + rel_pos,
        final(received)@ == old(received)@ + delivered_record(*old(view), event, rel_pos),
        delivered_record(*old(view), event, rel_pos).len() > 0 ==> final(handler).last_event_kind() == Some(
            delivered_record(*old(view), event, rel_pos).last().0,
        ),
        delivered_record(*old(view), event, rel_pos).len() == 0 ==> *final(handler) == *old(handler),
        delivered_record(*old(view), event, rel_pos).len() == 0 && spec_simple_event(event) is Some && !(
        spec_simple_event(event) == Some(EventResult::<'static, 'static>::Continue)) ==> r matches Err(
            PushParseError::Parse(_),
        ),
        ({
            let st = old(view).content().state();
            let pos = (old(view).content().offset() + rel_pos) as usize;
            match spec_simple_event(event) {
                Some(EventResult::Complete(_)) => {
                    &&& (r is Ok || r matches Err(PushParseError::Handler(_)))
                    &&& final(view).content().state() == st
                    &&& r is Ok ==> !final(view).content().reset_queued()
                },
                Some(EventResult::ExtractString) | Some(EventResult::ExtractKey) => {
                    let key = spec_simple_event(event) == Some(EventResult::<'static, 'static>::ExtractKey);
                    let in_place = match st {
                        State::Key(_) => key,
                        State::String(_) => !key,
                        _ => false,
                    };
                    &&& !in_place ==> r == Err::<(), PushParseError<E>>(
                        PushParseError::Parse(ParseError::Unexpected(UnexpectedState::StateMismatch)),
                    )
                    &&& in_place && old(view).content().pending_surrogate() ==> r == Err::<(), PushParseError<E>>(
                        PushParseError::Parse(ParseError::InvalidUnicodeCodepoint),
                    )
                    &&& r is Ok ==> final(view).content().state() == State::Empty && !final(view).content().reset_queued()
                },
                Some(EventResult::ExtractNumber(_)) => {
                    &&& !(st is Number) ==> r == Err::<(), PushParseError<E>>(
                        PushParseError::Parse(ParseError::Unexpected(UnexpectedState::StateMismatch)),
                    )
                    &&& r is Ok ==> final(view).content().state() == State::Empty && !final(view).content().reset_queued()
                },
                Some(EventResult::Continue) => r is Ok,
                None => {
                    &&& r matches Err(e) ==> e is Parse
                    &&& event == tokenizer::Event::Begin(EventToken::Key) ==> r is Ok && final(view).content().state()
                        == State::Key(pos)
                    &&& event == tokenizer::Event::Begin(EventToken::String) ==> r is Ok && final(view).content().state()
                        == State::String(pos)
                    &&& (event == tokenizer::Event::Begin(EventToken::Number) || event == tokenizer::Event::Begin(
                        EventToken::NumberAndArray,
                    ) || event == tokenizer::Event::Begin(EventToken::NumberAndObject)) ==> r is Ok && final(view).content().state() == State::Number(sat_sub(pos, 1))
                    &&& (event == tokenizer::Event::Begin(EventToken::Key) || event == tokenizer::Event::Begin(
                        EventToken::String,
                    )) ==> final(view).content().seg() == pos + 1 && final(view).content().hex_start() is None
                    &&& (event == tokenizer::Event::Begin(EventToken::Number) || event == tokenizer::Event::Begin(
                        EventToken::NumberAndArray,
                    ) || event == tokenizer::Event::Begin(EventToken::NumberAndObject)) ==> final(view).content().seg()
                        == pos && final(view).content().hex_start() is None
                    &&& (event == tokenizer::Event::Begin(EventToken::True) || event == tokenizer::Event::Begin(
                        EventToken::False,
                    ) || event == tokenizer::Event::Begin(EventToken::Null)) ==> r is Ok && final(view).content().state()
                        == st && final(view).content().seg() == old(view).content().seg() && final(view).content().hex_start()
                        == old(view).content().hex_start()
                },
            }
        }),
{
    view.set_event_position(rel_pos);
    if let Some(result) = process_simple_events(&event) {
        match result {
            EventResult::Complete(user_event) => {
                proof {
                    received@ = received@.push(event_record(user_event));
                    assert(received@ =~= old(received)@ + delivered_record(*old(view), event, rel_pos));
                }
                let delivered = handler_result(handler.handle_event(user_event));
                if delivered.is_err() {
                    return delivered;
                }
                view.apply_unescaped_reset_if_queued();
            },
            EventResult::ExtractString | EventResult::ExtractKey => {
                let key = match result {
                    EventResult::ExtractKey => true,
                    _ => false,
                };
                let ghost mid = *view;
                proof {
                    let pos = (old(view).content().offset() + rel_pos) as usize;
                    assert(forall|p: usize| old(view).ending_text(p, pos) == #[trigger] mid.ending_text(p, pos));
                }
                let user_event = match view.extract_content(key) {
                    Ok(ev) => ev,
                    Err(e) => return Err(PushParseError::Parse(e)),
                };
                proof {
                    received@ = received@.push(event_record(user_event));
                    assert(received@ =~= old(received)@ + delivered_record(*old(view), event, rel_pos));
                }
                let delivered = handler_result(handler.handle_event(user_event));
                if delivered.is_err() {
                    return delivered;
                }
                view.apply_unescaped_reset_if_queued();
            },
            EventResult::ExtractNumber(_) => {
                let ghost mid = *view;
                proof {
                    let pos = (old(view).content().offset() + rel_pos) as usize;
                    assert(forall|p: usize| old(view).ending_text(p, pos) == #[trigger] mid.ending_text(p, pos));
                }
                let user_event = match view.extract_number() {
                    Ok(ev) => ev,
                    Err(e) => return Err(PushParseError::Parse(e)),
                };
                proof {
                    received@ = received@.push(event_record(user_event));
                    assert(received@ =~= old(received)@ + delivered_record(*old(view), event, rel_pos));
                }
                let delivered = handler_result(handler.handle_event(user_event));
                if delivered.is_err() {
                    return delivered;
                }
                view.apply_unescaped_reset_if_queued();
            },
            EventResult::Continue => {},
        }
        return Ok(());
    }
    match view.process_other_event(event) {
        Ok(()) => Ok(()),
        Err(e) => Err(PushParseError::Parse(e)),
    }
}

/// What the parser makes of the handler's answer to an event: on `Ok` it
/// goes on, and the handler's error stops it.
pub fn handler_result<E>(answer: Result<(), E>) -> (r: Result<(), PushParseError<E>>)
    ensures
        r == match answer {
            Ok(()) => Ok::<(), PushParseError<E>>(()),
            Err(e) => Err::<(), PushParseError<E>>(PushParseError::Handler(e)),
        },
{
    match answer {
        Ok(()) => Ok(()),
        Err(e) => Err(PushParseError::Handler(e)),
    }
}

/// An error of the push parser.
#[derive(Debug, PartialEq)]
pub enum PushParseError<E> {
    /// The input is not valid JSON, or the parser failed.
    Parse(ParseError),
    /// The handler returned an error.
    Handler(E),
}

impl<E> From<tokenizer::Error> for PushParseError<E> {
    fn from(e: tokenizer::Error) -> (r: Self)
        ensures
            r == PushParseError::<E>::Parse(ParseError::TokenizerError(e)),
    {
        PushParseError::Parse(ParseError::TokenizerError(e))
    }
}

impl<E> vstd::std_specs::convert::FromSpecImpl<tokenizer::Error> for PushParseError<E> {
    open spec fn obeys_from_spec() -> bool {
        true
    }

    open spec fn from_spec(e: tokenizer::Error) -> Self {
        PushParseError::<E>::Parse(ParseError::TokenizerError(e))
    }
}

impl<E> From<ParseError> for PushParseError<E> {
    fn from(e: ParseError) -> (r: Self)
        ensures
            r == PushParseError::<E>::Parse(e),
    {
        PushParseError::Parse(e)
    }
}

impl<E> vstd::std_specs::convert::FromSpecImpl<ParseError> for PushParseError<E> {
    open spec fn obeys_from_spec() -> bool {
        true
    }

    open spec fn from_spec(e: ParseError) -> Self {
        PushParseError::<E>::Parse(e)
    }
}

impl<E> From<StreamBufferError> for PushParseError<E> {
    fn from(e: StreamBufferError) -> (r: Self)
        ensures
            r == PushParseError::<E>::Parse(spec_stream_error(e)),
    {
        PushParseError::Parse(ParseError::from(e))
    }
}

impl<E> vstd::std_specs::convert::FromSpecImpl<StreamBufferError> for PushParseError<E> {
    open spec fn obeys_from_spec() -> bool {
        true
    }

    open spec fn from_spec(e: StreamBufferError) -> Self {
        PushParseError::<E>::Parse(spec_stream_error(e))
    }
}

} // verus!

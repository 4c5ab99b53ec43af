//! Laws of the tokenizer: feeding a document in pieces gives the same
//! events, state and errors as feeding it at once (up to the positions, which
//! each chunk counts from its own start), and the nesting depth follows the
//! container events.

use vstd::prelude::*;

use crate::escape_processor::{spec_escape_char, spec_escape_token_result, spec_simple_escape};
use crate::tokenizer::{
    escape_token_of, lemma_run_error_stable, pair_events, spec_core, spec_precheck, spec_run, spec_step, ArrayExpect, CtxView,
    Error, Event, State, TokView, wrap_add,
};

verus! {

/// The context with the position of a pending comma forgotten.
pub open spec fn strip_ctx(c: CtxView) -> CtxView {
    CtxView {
        depth: c.depth,
        bits: c.bits,
        after_comma: match c.after_comma {
            Some((cc, _cp, cl, ccol)) => Some((cc, 0usize, cl, ccol)),
            None => None,
        },
    }
}

/// The tokenizer with its recorded positions forgotten.
pub open spec fn strip_view(v: TokView) -> TokView {
    TokView { ctx: strip_ctx(v.ctx), ..v }
}

/// An error with its position forgotten.
pub open spec fn strip_err(e: Error) -> Error {
    Error { position: 0, ..e }
}

pub open spec fn strip_err_opt(e: Option<Error>) -> Option<Error> {
    match e {
        Some(x) => Some(strip_err(x)),
        None => None,
    }
}

/// The events of a run, without their positions.
pub open spec fn event_kinds(evs: Seq<(Event, usize)>) -> Seq<Event> {
    evs.map_values(|p: (Event, usize)| p.0)
}

/// A transition with its positions forgotten.
pub open spec fn strip_result(r: Result<(State, CtxView), Error>) -> Result<(State, CtxView), Error> {
    match r {
        Ok((s, c)) => Ok((s, strip_ctx(c))),
        Err(e) => Err(strip_err(e)),
    }
}

proof fn lemma_core_strip(st: State, c: CtxView, dmax: nat, ch: u8, pos: usize, line: usize, col: usize)
    ensures
        spec_core(st, c, dmax, ch, pos, line, col).events == spec_core(st, strip_ctx(c), dmax, ch, 0, line, col).events,
        strip_result(spec_core(st, c, dmax, ch, pos, line, col).result) == strip_result(
            spec_core(st, strip_ctx(c), dmax, ch, 0, line, col).result,
        ),
{
}

proof fn lemma_pair_kinds(evs: Seq<Event>, pos: usize)
    ensures
        event_kinds(pair_events(evs, pos)) == evs,
{
    assert(event_kinds(pair_events(evs, pos)) =~= evs);
}

/// One byte depends on the recorded positions only through the positions it
/// records and reports.
proof fn lemma_step_strip(v: TokView, dmax: nat, ch: u8, pos: usize)
    ensures
        event_kinds(spec_step(v, dmax, ch, pos).events) == event_kinds(spec_step(strip_view(v), dmax, ch, 0).events),
        strip_view(spec_step(v, dmax, ch, pos).next) == strip_view(spec_step(strip_view(v), dmax, ch, 0).next),
        strip_err_opt(spec_step(v, dmax, ch, pos).err) == strip_err_opt(spec_step(strip_view(v), dmax, ch, 0).err),
{
    reveal(spec_step);
    let sv = strip_view(v);
    let pre = if v.state == (State::Array { expect: ArrayExpect::ItemOrEnd }) {
        spec_precheck(v.ctx, ch)
    } else {
        Ok(v.ctx)
    };
    let spre = if sv.state == (State::Array { expect: ArrayExpect::ItemOrEnd }) {
        spec_precheck(sv.ctx, ch)
    } else {
        Ok(sv.ctx)
    };
    match pre {
        Err(e) => {
            assert(spre is Err);
        },
        Ok(c) => {
            let sc = spre->Ok_0;
            assert(strip_ctx(c) == strip_ctx(sc));
            lemma_core_strip(v.state, c, dmax, ch, pos, v.line, v.column);
            lemma_core_strip(v.state, sc, dmax, ch, 0, v.line, v.column);
            let t = spec_core(v.state, c, dmax, ch, pos, v.line, v.column);
            let st = spec_core(v.state, sc, dmax, ch, 0, v.line, v.column);
            lemma_pair_kinds(t.events, pos);
            lemma_pair_kinds(st.events, 0);
        },
    }
}

/// Two tokenizers that differ only in recorded positions take any byte at
/// any positions alike.
proof fn lemma_step_congruent(v1: TokView, v2: TokView, dmax: nat, ch: u8, p1: usize, p2: usize)
    requires
        strip_view(v1) == strip_view(v2),
    ensures
        event_kinds(spec_step(v1, dmax, ch, p1).events) == event_kinds(spec_step(v2, dmax, ch, p2).events),
        strip_view(spec_step(v1, dmax, ch, p1).next) == strip_view(spec_step(v2, dmax, ch, p2).next),
        strip_err_opt(spec_step(v1, dmax, ch, p1).err) == strip_err_opt(spec_step(v2, dmax, ch, p2).err),
{
    lemma_step_strip(v1, dmax, ch, p1);
    lemma_step_strip(v2, dmax, ch, p2);
}

/// Runs from tokenizers that differ only in recorded positions agree up to
/// positions, whatever the data's offset.
proof fn lemma_run_suffix(v: TokView, dmax: nat, a: Seq<u8>, b: Seq<u8>)
    requires
        spec_run(v, dmax, a).err is None,
    ensures
        ({
            let whole = spec_run(v, dmax, a + b);
            let ra = spec_run(v, dmax, a);
            let rb = spec_run(ra.next, dmax, b);
            &&& event_kinds(whole.events) == event_kinds(ra.events) + event_kinds(rb.events)
            &&& strip_view(whole.next) == strip_view(rb.next)
            &&& strip_err_opt(whole.err) == strip_err_opt(rb.err)
        }),
    decreases b.len(),
{
    let ra = spec_run(v, dmax, a);
    if b.len() == 0 {
        assert(a + b =~= a);
        assert(event_kinds(Seq::<(Event, usize)>::empty()) =~= Seq::<Event>::empty());
        assert(event_kinds(ra.events) + Seq::<Event>::empty() =~= event_kinds(ra.events));
    } else {
        let ab = a + b;
        assert(ab.drop_last() =~= a + b.drop_last());
        assert(ab.last() == b.last());
        lemma_run_suffix(v, dmax, a, b.drop_last());
        let wp = spec_run(v, dmax, a + b.drop_last());
        let bp = spec_run(ra.next, dmax, b.drop_last());
        if wp.err is None {
            assert(bp.err is None);
            lemma_step_congruent(wp.next, bp.next, dmax, b.last(), (ab.len() - 1) as usize, (b.len() - 1) as usize);
            let ow = spec_step(wp.next, dmax, b.last(), (ab.len() - 1) as usize);
            let ob = spec_step(bp.next, dmax, b.last(), (b.len() - 1) as usize);
            assert(event_kinds(wp.events + ow.events) =~= event_kinds(wp.events) + event_kinds(ow.events));
            assert(event_kinds(bp.events + ob.events) =~= event_kinds(bp.events) + event_kinds(ob.events));
            assert(event_kinds(ra.events) + event_kinds(bp.events) + event_kinds(ob.events) =~= event_kinds(ra.events)
                + (event_kinds(bp.events) + event_kinds(ob.events)));
        } else {
            assert(bp.err is Some);
        }
    }
}

/// Chunking law: parsing `a` and then `b` gives the same event kinds, in
/// the same order, the same final state and the same error as parsing
/// `a + b` at once, up to positions (which each chunk counts from its own
/// start); and an error in `a` ends the run there either way.
pub proof fn law_chunking(v: TokView, dmax: nat, a: Seq<u8>, b: Seq<u8>)
    ensures
        ({
            let whole = spec_run(v, dmax, a + b);
            let ra = spec_run(v, dmax, a);
            let rb = spec_run(ra.next, dmax, b);
            &&& ra.err is Some ==> whole == ra
            &&& ra.err is None ==> {
                &&& event_kinds(whole.events) == event_kinds(ra.events) + event_kinds(rb.events)
                &&& strip_view(whole.next) == strip_view(rb.next)
                &&& strip_err_opt(whole.err) == strip_err_opt(rb.err)
            }
        }),
{
    let ra = spec_run(v, dmax, a);
    if ra.err is Some {
        assert((a + b).take(a.len() as int) =~= a);
        lemma_run_error_stable(v, dmax, a + b, a.len() as int);
    } else {
        lemma_run_suffix(v, dmax, a, b);
    }
}


/// Events with their positions moved on by `n` (positions of a later chunk
/// counted from the start of a document that has `n` bytes before it).
pub open spec fn shift_events(evs: Seq<(Event, usize)>, n: nat) -> Seq<(Event, usize)> {
    evs.map_values(|p: (Event, usize)| (p.0, (p.1 + n) as usize))
}

/// Every event of one byte is reported at that byte's position.
proof fn lemma_step_positions(v: TokView, dmax: nat, ch: u8, pos: usize)
    ensures
        forall|i: int|
            0 <= i < spec_step(v, dmax, ch, pos).events.len() ==> (#[trigger] spec_step(v, dmax, ch, pos).events[i]).1
                == pos,
{
    reveal(spec_step);
}

/// Feeding one more byte after `s` adds the events of that byte, each at
/// the byte's position.
pub proof fn lemma_run_push(v: TokView, dmax: nat, s: Seq<u8>, b: u8)
    requires
        spec_run(v, dmax, s).err is None,
    ensures
        spec_run(v, dmax, s.push(b)).events == spec_run(v, dmax, s).events + spec_step(
            spec_run(v, dmax, s).next,
            dmax,
            b,
            s.len() as usize,
        ).events,
        forall|j: int|
            spec_run(v, dmax, s).events.len() <= j < spec_run(v, dmax, s.push(b)).events.len() ==> (
            #[trigger] spec_run(v, dmax, s.push(b)).events[j]).1 == s.len() as usize,
{
    assert(s.push(b).drop_last() =~= s);
    lemma_step_positions(spec_run(v, dmax, s).next, dmax, b, s.len() as usize);
    let st = spec_step(spec_run(v, dmax, s).next, dmax, b, s.len() as usize);
    assert forall|j: int|
        spec_run(v, dmax, s).events.len() <= j < spec_run(v, dmax, s.push(b)).events.len() implies (
        #[trigger] spec_run(v, dmax, s.push(b)).events[j]).1 == s.len() as usize by {
        assert(spec_run(v, dmax, s.push(b)).events[j] == st.events[j - spec_run(v, dmax, s).events.len()]);
    }
}

/// The events of `a + b` are those of `a`, then those of `b` fed after it
/// with their positions moved on by the length of `a`.
proof fn lemma_run_suffix_positions(v: TokView, dmax: nat, a: Seq<u8>, b: Seq<u8>)
    requires
        spec_run(v, dmax, a).err is None,
        a.len() + b.len() <= usize::MAX,
    ensures
        spec_run(v, dmax, a + b).events == spec_run(v, dmax, a).events + shift_events(
            spec_run(spec_run(v, dmax, a).next, dmax, b).events,
            a.len(),
        ),
    decreases b.len(),
{
    let ra = spec_run(v, dmax, a);
    if b.len() == 0 {
        assert(a + b =~= a);
        assert(shift_events(Seq::<(Event, usize)>::empty(), a.len()) =~= Seq::<(Event, usize)>::empty());
        assert(ra.events + Seq::<(Event, usize)>::empty() =~= ra.events);
    } else {
        let ab = a + b;
        assert(ab.drop_last() =~= a + b.drop_last());
        assert(ab.last() == b.last());
        lemma_run_suffix_positions(v, dmax, a, b.drop_last());
        lemma_run_suffix(v, dmax, a, b.drop_last());
        let wp = spec_run(v, dmax, a + b.drop_last());
        let bp = spec_run(ra.next, dmax, b.drop_last());
        if wp.err is None {
            let pw = (ab.len() - 1) as usize;
            let pb = (b.len() - 1) as usize;
            lemma_step_congruent(wp.next, bp.next, dmax, b.last(), pw, pb);
            lemma_step_positions(wp.next, dmax, b.last(), pw);
            lemma_step_positions(bp.next, dmax, b.last(), pb);
            let ow = spec_step(wp.next, dmax, b.last(), pw);
            let ob = spec_step(bp.next, dmax, b.last(), pb);
            assert(event_kinds(ow.events) == event_kinds(ob.events));
            assert forall|i: int| 0 <= i < ow.events.len() implies ow.events[i] == shift_events(ob.events, a.len())[i] by {
                assert(event_kinds(ow.events)[i] == event_kinds(ob.events)[i]);
            }
            assert(ow.events =~= shift_events(ob.events, a.len()));
            assert(shift_events(bp.events + ob.events, a.len()) =~= shift_events(bp.events, a.len()) + shift_events(
                ob.events,
                a.len(),
            ));
            assert(wp.events + ow.events =~= ra.events + (shift_events(bp.events, a.len()) + shift_events(
                ob.events,
                a.len(),
            )));
        } else {
            assert(bp.err is Some);
        }
    }
}

/// Chunking law with positions: when `a` raises no error and the whole
/// document fits in memory, parsing `a + b` at once reports the events of
/// `a` and then those of `b` (fed after `a`), each at the same byte, the
/// positions from `b`'s own chunk moved on by the length of `a`.
pub proof fn law_chunking_positions(v: TokView, dmax: nat, a: Seq<u8>, b: Seq<u8>)
    requires
        spec_run(v, dmax, a).err is None,
        a.len() + b.len() <= usize::MAX,
    ensures
        spec_run(v, dmax, a + b).events == spec_run(v, dmax, a).events + shift_events(
            spec_run(spec_run(v, dmax, a).next, dmax, b).events,
            a.len(),
        ),
{
    lemma_run_suffix_positions(v, dmax, a, b);
}

/// How an event changes the nesting depth.
pub open spec fn depth_delta(e: Event) -> int {
    match e {
        Event::ObjectStart | Event::ArrayStart => 1,
        Event::ObjectEnd | Event::ArrayEnd => -1,
        _ => 0,
    }
}

/// The containers opened minus those closed by a sequence of events.
pub open spec fn net_depth(evs: Seq<Event>) -> int
    decreases evs.len(),
{
    if evs.len() == 0 {
        0
    } else {
        net_depth(evs.drop_last()) + depth_delta(evs.last())
    }
}

proof fn lemma_net_depth_concat(a: Seq<Event>, b: Seq<Event>)
    ensures
        net_depth(a + b) == net_depth(a) + net_depth(b),
    decreases b.len(),
{
    if b.len() > 0 {
        assert((a + b).drop_last() =~= a + b.drop_last());
        lemma_net_depth_concat(a, b.drop_last());
    } else {
        assert(a + b =~= a);
    }
}

/// The depth change of at most two events.
proof fn lemma_net_depth_short(evs: Seq<Event>)
    requires
        evs.len() <= 2,
    ensures
        net_depth(evs) == if evs.len() == 0 {
            0
        } else if evs.len() == 1 {
            depth_delta(evs[0])
        } else {
            depth_delta(evs[0]) + depth_delta(evs[1])
        },
{
    if evs.len() > 0 {
        let p = evs.drop_last();
        assert(net_depth(evs) == net_depth(p) + depth_delta(evs.last()));
        if p.len() > 0 {
            assert(p.drop_last().len() == 0);
            assert(net_depth(p) == net_depth(p.drop_last()) + depth_delta(p.last()));
        }
    }
}

/// One byte without error moves the depth by what its events open and close,
/// and never past the counter's limit.
proof fn lemma_step_depth(v: TokView, dmax: nat, ch: u8, pos: usize)
    requires
        spec_step(v, dmax, ch, pos).err is None,
    ensures
        spec_step(v, dmax, ch, pos).next.ctx.depth == v.ctx.depth + net_depth(
            event_kinds(spec_step(v, dmax, ch, pos).events),
        ),
        v.ctx.depth <= dmax ==> spec_step(v, dmax, ch, pos).next.ctx.depth <= dmax,
{
    reveal(spec_step);
    let pre = if v.state == (State::Array { expect: ArrayExpect::ItemOrEnd }) {
        spec_precheck(v.ctx, ch)
    } else {
        Ok(v.ctx)
    };
    match pre {
        Err(_) => {},
        Ok(c) => {
            let t = spec_core(v.state, c, dmax, ch, pos, v.line, v.column);
            lemma_pair_kinds(t.events, pos);
            assert(t.events.len() <= 2);
            lemma_net_depth_short(t.events);
        },
    }
}

/// Depth law: over input that raises no error, the nesting depth changes by
/// exactly the number of containers opened minus the number closed, and it
/// never exceeds what the depth counter holds.
pub proof fn law_depth_follows_events(v: TokView, dmax: nat, data: Seq<u8>)
    requires
        spec_run(v, dmax, data).err is None,
    ensures
        spec_run(v, dmax, data).next.ctx.depth == v.ctx.depth + net_depth(event_kinds(spec_run(v, dmax, data).events)),
        v.ctx.depth <= dmax ==> spec_run(v, dmax, data).next.ctx.depth <= dmax,
    decreases data.len(),
{
    if data.len() == 0 {
        assert(event_kinds(Seq::<(Event, usize)>::empty()) =~= Seq::<Event>::empty());
    } else {
        let prev = spec_run(v, dmax, data.drop_last());
        assert(prev.err is None);
        law_depth_follows_events(v, dmax, data.drop_last());
        let o = spec_step(prev.next, dmax, data.last(), (data.len() - 1) as usize);
        lemma_step_depth(prev.next, dmax, data.last(), (data.len() - 1) as usize);
        assert(event_kinds(prev.events + o.events) =~= event_kinds(prev.events) + event_kinds(o.events));
        lemma_net_depth_concat(event_kinds(prev.events), event_kinds(o.events));
    }
}


/// The tokenizer with its recorded positions and its byte count forgotten.
pub open spec fn canon(v: TokView) -> TokView {
    TokView { ctx: strip_ctx(v.ctx), total: 0, ..v }
}

/// The byte count does not steer a step.
proof fn lemma_step_total(v: TokView, dmax: nat, ch: u8, pos: usize)
    ensures
        spec_step(TokView { total: 0, ..v }, dmax, ch, pos).events == spec_step(v, dmax, ch, pos).events,
        spec_step(TokView { total: 0, ..v }, dmax, ch, pos).err == spec_step(v, dmax, ch, pos).err,
        spec_step(TokView { total: 0, ..v }, dmax, ch, pos).next == (TokView {
            total: 0,
            ..spec_step(v, dmax, ch, pos).next
        }),
{
    reveal(spec_step);
}

/// One byte fed on its own to a tokenizer that agrees, up to positions and
/// byte count, with the run over `s`, does what it does at the end of `s`.
pub proof fn lemma_feed_byte(v: TokView, w: TokView, dmax: nat, s: Seq<u8>, b: u8)
    requires
        spec_run(v, dmax, s).err is None,
        canon(w) == canon(spec_run(v, dmax, s).next),
    ensures
        ({
            let whole = spec_run(v, dmax, s.push(b));
            let one = spec_run(w, dmax, seq![b]);
            &&& event_kinds(whole.events) == event_kinds(spec_run(v, dmax, s).events) + event_kinds(one.events)
            &&& canon(whole.next) == canon(one.next)
            &&& strip_err_opt(whole.err) == strip_err_opt(one.err)
            &&& one.events.len() <= 2
        }),
{
    let prev = spec_run(v, dmax, s);
    let sb = s.push(b);
    assert(sb.drop_last() =~= s);
    assert(seq![b].drop_last() =~= Seq::<u8>::empty());
    let pos = (sb.len() - 1) as usize;
    let ow = spec_step(prev.next, dmax, b, pos);
    let oo = spec_step(w, dmax, b, 0);
    lemma_step_strip(prev.next, dmax, b, pos);
    lemma_step_strip(w, dmax, b, 0);
    lemma_step_total(strip_view(prev.next), dmax, b, 0);
    lemma_step_total(strip_view(w), dmax, b, 0);
    assert(TokView { total: 0, ..strip_view(prev.next) } == TokView { total: 0, ..strip_view(w) });
    assert(event_kinds(prev.events + ow.events) =~= event_kinds(prev.events) + event_kinds(ow.events));
    assert(event_kinds(Seq::<(Event, usize)>::empty() + oo.events) =~= event_kinds(oo.events));
    assert(Seq::<(Event, usize)>::empty() + oo.events =~= oo.events);
    lemma_step_events_len(w, dmax, b, 0);
    let whole = spec_run(v, dmax, sb);
    let one = spec_run(w, dmax, seq![b]);
    assert(whole.events == prev.events + ow.events);
    assert(seq![b].last() == b);
    assert(spec_run(w, dmax, seq![b].drop_last()) == spec_run(w, dmax, Seq::<u8>::empty()));
    assert(spec_run(w, dmax, Seq::<u8>::empty()).next == w);
    assert(one.events == oo.events);
    assert(event_kinds(whole.events) == event_kinds(prev.events) + event_kinds(one.events));
    assert(canon(whole.next) == canon(one.next));
    assert(strip_err_opt(whole.err) == strip_err_opt(one.err));
}

/// Runs from tokenizers that agree up to positions and byte count give the
/// same event kinds, agree again at the end, and fail alike.
pub proof fn lemma_run_canon(v1: TokView, v2: TokView, dmax: nat, data: Seq<u8>)
    requires
        canon(v1) == canon(v2),
    ensures
        event_kinds(spec_run(v1, dmax, data).events) == event_kinds(spec_run(v2, dmax, data).events),
        canon(spec_run(v1, dmax, data).next) == canon(spec_run(v2, dmax, data).next),
        strip_err_opt(spec_run(v1, dmax, data).err) == strip_err_opt(spec_run(v2, dmax, data).err),
    decreases data.len(),
{
    if data.len() == 0 {
        assert(event_kinds(Seq::<(Event, usize)>::empty()) =~= Seq::<Event>::empty());
    } else {
        let d = data.drop_last();
        lemma_run_canon(v1, v2, dmax, d);
        let p1 = spec_run(v1, dmax, d);
        let p2 = spec_run(v2, dmax, d);
        if p1.err is None {
            let pos = (data.len() - 1) as usize;
            let ch = data.last();
            lemma_step_strip(p1.next, dmax, ch, pos);
            lemma_step_strip(p2.next, dmax, ch, pos);
            lemma_step_total(strip_view(p1.next), dmax, ch, 0);
            lemma_step_total(strip_view(p2.next), dmax, ch, 0);
            assert(TokView { total: 0, ..strip_view(p1.next) } == TokView { total: 0, ..strip_view(p2.next) });
            let o1 = spec_step(p1.next, dmax, ch, pos);
            let o2 = spec_step(p2.next, dmax, ch, pos);
            assert(event_kinds(p1.events + o1.events) =~= event_kinds(p1.events) + event_kinds(o1.events));
            assert(event_kinds(p2.events + o2.events) =~= event_kinds(p2.events) + event_kinds(o2.events));
        }
    }
}

/// A byte emits at most two events.
proof fn lemma_step_events_len(v: TokView, dmax: nat, ch: u8, pos: usize)
    ensures
        spec_step(v, dmax, ch, pos).events.len() <= 2,
{
    reveal(spec_step);
    let pre = if v.state == (State::Array { expect: ArrayExpect::ItemOrEnd }) {
        spec_precheck(v.ctx, ch)
    } else {
        Ok(v.ctx)
    };
    match pre {
        Err(_) => {},
        Ok(c) => {
            let t = spec_core(v.state, c, dmax, ch, pos, v.line, v.column);
            assert(t.events.len() <= 2);
        },
    }
}


/// A single byte fed on its own emits at most two events.
pub proof fn lemma_run_one_len(v: TokView, dmax: nat, b: u8)
    ensures
        spec_run(v, dmax, seq![b]).events.len() <= 2,
{
    assert(seq![b].drop_last() =~= Seq::<u8>::empty());
    assert(spec_run(v, dmax, seq![b].drop_last()) == spec_run(v, dmax, Seq::<u8>::empty()));
    lemma_step_events_len(v, dmax, b, 0);
    assert(Seq::<(Event, usize)>::empty() + spec_step(v, dmax, b, 0).events =~= spec_step(v, dmax, b, 0).events);
}


/// Adding nothing wraps to the same count.
pub proof fn lemma_wrap_add_zero(a: usize)
    ensures
        wrap_add(a, 0) == a,
{
}

/// Counting one more byte after `n` counts `n + 1`, modulo the word size.
pub proof fn lemma_wrap_add_step(a: usize, n: nat)
    requires
        n < usize::MAX,
    ensures
        wrap_add(wrap_add(a, n), 1) == wrap_add(a, n + 1),
{
}

/// The escape token the tokenizer reports for the byte `c` after a
/// backslash names that very byte, and stands for what `\c` means: the
/// tokenizer's table of simple escapes and the escape processor's agree, and
/// a byte has a token exactly when `\c` is a simple escape.
pub proof fn law_escape_token_names_its_byte(c: u8)
    ensures
        escape_token_of(c) is Some <==> spec_simple_escape(c) is Some,
        escape_token_of(c) matches Some(t) ==> spec_escape_char(t) == Some(c) && spec_escape_token_result(t) == Ok::<
            u8,
            crate::parse_error::ParseError,
        >(spec_simple_escape(c)->0),
{
}

} // verus!

use vstd::prelude::*;
use vstd::string::*;

use crate::matcher::{feed, run, MatchOutcome, MatcherView, StopMatcher};

verus! {

/// What a request reports to its consumer, one per activation.
#[derive(Debug, Clone)]
pub enum CompletionResponse {
    Text(String),
    Error(String),
    Done,
}

/// Where a request stands as the consumer sees it. It only ever moves from
/// `Processing` to `Done` or `Error`.
#[derive(PartialEq, Eq, Structural, Clone, Copy, Debug)]
pub enum CompletionRequestState {
    Processing,
    Done,
    Error,
}

/// The completion engine of one request. The generation session itself is
/// driven by the caller, who reports what each piece of outside work gave.
pub enum CompletionState {
    /// The prompt to load, and the stop marker of the template it was made with.
    Ready(String, String),
    /// Output is streaming through the stop-marker matcher.
    Processing(StopMatcher),
    /// A last piece of text went out; `Done` follows on the next activation.
    Closing,
    /// Terminal: no activation yields anything further.
    Done,
}

/// What the outside work of one activation gave.
pub enum Pulled {
    /// Loading the context or starting generation failed, with this message.
    Failed(String),
    /// The stream produced this unit of text.
    Unit(String),
    /// The stream has no more units.
    Exhausted,
}

/// The outside work an activation needs before `run_completion` can decide.
pub enum Work {
    /// Load this prompt into the session, start generation, and pull the first unit.
    Start(String),
    /// Pull the next unit of the stream.
    Pull,
    /// No outside work: activate with any `Pulled`, it is not read.
    Respond,
    /// Terminal: do not activate again.
    Park,
}

pub enum Reply {
    Text(Seq<char>),
    Error(Seq<char>),
    Done,
}

pub enum EngineView {
    Ready(Seq<char>, Seq<char>),
    Processing(MatcherView),
    Closing,
    Done,
}

pub enum PulledView {
    Failed(Seq<char>),
    Unit(Seq<char>),
    Exhausted,
}

impl View for CompletionResponse {
    type V = Reply;

    open spec fn view(&self) -> Reply {
        match self {
            CompletionResponse::Text(t) => Reply::Text(t@),
            CompletionResponse::Error(e) => Reply::Error(e@),
            CompletionResponse::Done => Reply::Done,
        }
    }
}

impl View for CompletionState {
    type V = EngineView;

    open spec fn view(&self) -> EngineView {
        match self {
            CompletionState::Ready(p, m) => EngineView::Ready(p@, m@),
            CompletionState::Processing(s) => EngineView::Processing(s@),
            CompletionState::Closing => EngineView::Closing,
            CompletionState::Done => EngineView::Done,
        }
    }
}

impl View for Pulled {
    type V = PulledView;

    open spec fn view(&self) -> PulledView {
        match self {
            Pulled::Failed(e) => PulledView::Failed(e@),
            Pulled::Unit(t) => PulledView::Unit(t@),
            Pulled::Exhausted => PulledView::Exhausted,
        }
    }
}

impl EngineView {
    pub open spec fn wf(self) -> bool {
        match self {
            EngineView::Ready(_, m) => m.len() > 0,
            EngineView::Processing(mv) => mv.wf(),
            _ => true,
        }
    }
}

impl CompletionState {
    pub open spec fn wf(&self) -> bool {
        self@.wf()
    }
}

/// A unit of output passed through the matcher: text goes out and streaming
/// goes on; a confirmed marker ends the request, after the text before it.
pub open spec fn consume(mv: MatcherView, unit: Seq<char>) -> (EngineView, Reply) {
    let st = feed(mv.marker, mv.pending, unit);
    if st.stopped {
        if st.emitted.len() == 0 {
            (EngineView::Done, Reply::Done)
        } else {
            (EngineView::Closing, Reply::Text(st.emitted))
        }
    } else {
        (
            EngineView::Processing(MatcherView { marker: mv.marker, pending: st.pending }),
            Reply::Text(st.emitted),
        )
    }
}

/// One activation of the engine: the next state and the event it yields.
pub open spec fn activation(s: EngineView, p: PulledView) -> (EngineView, Option<Reply>) {
    match s {
        EngineView::Ready(_, marker) => match p {
            PulledView::Failed(e) => (EngineView::Done, Some(Reply::Error(e))),
            PulledView::Exhausted => (EngineView::Done, Some(Reply::Done)),
            PulledView::Unit(u) => {
                let (n, r) = consume(MatcherView { marker, pending: None }, u);
                (n, Some(r))
            },
        },
        EngineView::Processing(mv) => match p {
            PulledView::Failed(e) => (EngineView::Done, Some(Reply::Error(e))),
            PulledView::Exhausted => match mv.pending {
                Some(q) => (EngineView::Closing, Some(Reply::Text(q))),
                None => (EngineView::Done, Some(Reply::Done)),
            },
            PulledView::Unit(u) => {
                let (n, r) = consume(mv, u);
                (n, Some(r))
            },
        },
        EngineView::Closing => (EngineView::Done, Some(Reply::Done)),
        EngineView::Done => (EngineView::Done, None),
    }
}

/// The events of a run of activations, one outcome of outside work each.
pub open spec fn activations(s: EngineView, ps: Seq<PulledView>) -> Seq<Reply>
    decreases ps.len(),
{
    if ps.len() == 0 {
        Seq::empty()
    } else {
        let (n, r) = activation(s, ps[0]);
        let rest = activations(n, ps.drop_first());
        match r {
            Some(e) => seq![e] + rest,
            None => rest,
        }
    }
}

/// Once terminal, an engine yields no event however often it is activated.
pub proof fn lemma_terminal_is_silent(ps: Seq<PulledView>)
    ensures
        activations(EngineView::Done, ps) == Seq::<Reply>::empty(),
    decreases ps.len(),
{
    if ps.len() > 0 {
        lemma_terminal_is_silent(ps.drop_first());
    }
}

/// The text carried by a run of events, in order.
pub open spec fn text_of(events: Seq<Reply>) -> Seq<char>
    decreases events.len(),
{
    if events.len() == 0 {
        Seq::empty()
    } else {
        let rest = text_of(events.drop_first());
        match events[0] {
            Reply::Text(t) => t + rest,
            _ => rest,
        }
    }
}

/// Outside work that produced each of `chunks` in turn.
pub open spec fn units(chunks: Seq<Seq<char>>) -> Seq<PulledView> {
    chunks.map_values(|c: Seq<char>| PulledView::Unit(c))
}

/// The events of a stream that reaches the stop marker: text events only,
/// then a single `Done`.
pub open spec fn texts_then_done(events: Seq<Reply>) -> bool {
    &&& events.len() > 0
    &&& events.last() is Done
    &&& forall|i: int| 0 <= i < events.len() - 1 ==> #[trigger] events[i] is Text
}

/// A streaming engine whose matcher confirms the marker within `chunks`
/// delivers, in order, exactly the text the matcher releases, then one `Done`
/// and nothing more, whatever the activations after that bring.
pub proof fn lemma_stream_delivers_released_text(
    mv: MatcherView,
    chunks: Seq<Seq<char>>,
    after: Seq<PulledView>,
)
    requires
        mv.wf(),
        run(mv.marker, mv.pending, chunks).stopped,
        after.len() > 0,
    ensures
        text_of(activations(EngineView::Processing(mv), units(chunks) + after)) == run(
            mv.marker,
            mv.pending,
            chunks,
        ).emitted,
        texts_then_done(activations(EngineView::Processing(mv), units(chunks) + after)),
    decreases chunks.len(),
{
    let m = mv.marker;
    let ps = units(chunks) + after;
    if chunks.len() == 0 {
        return;
    }
    let c = chunks[0];
    let tail = chunks.drop_first();
    assert(ps[0] == PulledView::Unit(c));
    assert(ps.drop_first() =~= units(tail) + after);
    let st = feed(m, mv.pending, c);
    crate::matcher::lemma_feed(m, mv.pending, c);
    let rest_ps = ps.drop_first();
    if st.stopped {
        if st.emitted.len() == 0 {
            lemma_terminal_is_silent(rest_ps);
            let ev = activations(EngineView::Processing(mv), ps);
            assert(ev =~= seq![Reply::Done]);
            assert(text_of(ev.drop_first()) == Seq::<char>::empty());
            assert(st.emitted =~= Seq::<char>::empty());
        } else {
            lemma_terminal_is_silent(rest_ps.drop_first());
            assert(activations(EngineView::Closing, rest_ps) =~= seq![Reply::Done]);
            let ev = activations(EngineView::Processing(mv), ps);
            assert(ev =~= seq![Reply::Text(st.emitted), Reply::Done]);
            assert(ev.drop_first() =~= seq![Reply::Done]);
            assert(ev.drop_first().drop_first() =~= Seq::<Reply>::empty());
            assert(text_of(ev.drop_first().drop_first()) == Seq::<char>::empty());
            assert(text_of(ev.drop_first()) == Seq::<char>::empty());
            assert(st.emitted + Seq::<char>::empty() =~= st.emitted);
        }
    } else {
        let next = MatcherView { marker: m, pending: st.pending };
        lemma_stream_delivers_released_text(next, tail, after);
        let rest_ev = activations(EngineView::Processing(next), rest_ps);
        let ev = activations(EngineView::Processing(mv), ps);
        assert(ev == seq![Reply::Text(st.emitted)] + rest_ev);
        assert(ev.drop_first() =~= rest_ev);
        assert forall|i: int| 0 <= i < ev.len() - 1 implies #[trigger] ev[i] is Text by {
            if i > 0 {
                assert(ev[i] == rest_ev[i - 1]);
            }
        }
    }
}

/// A request whose output is some text in which no character could start the
/// stop marker, then the marker, then anything at all, delivers exactly that
/// text through its events and then one `Done`, however the output is cut
/// into units and however often it is activated afterwards.
pub proof fn lemma_request_stops_at_marker(
    prompt: Seq<char>,
    m: Seq<char>,
    text: Seq<char>,
    rest: Seq<char>,
    chunks: Seq<Seq<char>>,
    after: Seq<PulledView>,
)
    requires
        m.len() > 0,
        forall|k: int| 0 <= k < text.len() ==> text[k] != m[0],
        chunks.flatten() == text + m + rest,
        after.len() > 0,
    ensures
        text_of(activations(EngineView::Ready(prompt, m), units(chunks) + after)) == text,
        texts_then_done(activations(EngineView::Ready(prompt, m), units(chunks) + after)),
{
    crate::matcher::lemma_marker_never_leaks(m, text, rest, chunks);
    let mv = MatcherView { marker: m, pending: None };
    lemma_stream_delivers_released_text(mv, chunks, after);
    let ps = units(chunks) + after;
    assert(chunks.len() > 0) by {
        if chunks.len() == 0 {
            assert((text + m + rest).len() > 0);
        }
    }
    assert(ps[0] == PulledView::Unit(chunks[0]));
    assert(activation(EngineView::Ready(prompt, m), ps[0]) == activation(
        EngineView::Processing(mv),
        ps[0],
    ));
}

/// An activation that ends the request (`Done` or `Error`) leaves the engine
/// terminal.
proof fn lemma_ending_leaves_terminal(s: EngineView, p: PulledView)
    ensures
        activation(s, p).1 matches Some(e) && !(e is Text) ==> activation(s, p).0 is Done,
{
}

/// Whatever the outside work brings, a request yields at most one `Done` or
/// `Error`, and it is its last event: every event before it is text.
pub proof fn lemma_ending_event_is_last(s: EngineView, ps: Seq<PulledView>)
    ensures
        forall|i: int|
            0 <= i < activations(s, ps).len() - 1 ==> #[trigger] activations(s, ps)[i] is Text,
    decreases ps.len(),
{
    if ps.len() > 0 {
        let (n, r) = activation(s, ps[0]);
        let rest = ps.drop_first();
        lemma_ending_event_is_last(n, rest);
        lemma_ending_leaves_terminal(s, ps[0]);
        let ev = activations(s, ps);
        let tail = activations(n, rest);
        match r {
            Some(e) => {
                assert(ev == seq![e] + tail);
                if !(e is Text) {
                    lemma_terminal_is_silent(rest);
                    assert(ev =~= seq![e]);
                } else {
                    assert forall|i: int| 0 <= i < ev.len() - 1 implies #[trigger] ev[i] is Text by {
                        if i > 0 {
                            assert(ev[i] == tail[i - 1]);
                        }
                    }
                }
            },
            None => {},
        }
    }
}

/// Every activation keeps the engine well formed.
pub proof fn lemma_activation_wf(s: EngineView, p: PulledView)
    requires
        s.wf(),
    ensures
        activation(s, p).0.wf(),
{
    match s {
        EngineView::Ready(_, marker) => {
            if let PulledView::Unit(u) = p {
                crate::matcher::lemma_feed(marker, None, u);
            }
        },
        EngineView::Processing(mv) => {
            if let PulledView::Unit(u) = p {
                crate::matcher::lemma_feed(mv.marker, mv.pending, u);
            }
        },
        _ => {},
    }
}

pub open spec fn reply_of(r: Option<(usize, CompletionResponse)>, id: usize) -> Option<Reply> {
    match r {
        Some((i, c)) => if i == id {
            Some(c@)
        } else {
            None
        },
        None => None,
    }
}

impl CompletionState {
    /// A fresh engine for `prompt`, stopping at `marker`.
    pub fn new(prompt: &str, marker: &str) -> (r: CompletionState)
        requires
            marker@.len() > 0,
        ensures
            r@ == EngineView::Ready(prompt@, marker@),
            r.wf(),
    {
        CompletionState::Ready(prompt.to_owned(), marker.to_owned())
    }

    /// The outside work the next activation needs.
    pub fn work(&self) -> (r: Work)
        ensures
            match self@ {
                EngineView::Ready(p, _) => r matches Work::Start(q) && q@ == p,
                EngineView::Processing(_) => r is Pull,
                EngineView::Closing => r is Respond,
                EngineView::Done => r is Park,
            },
    {
        match self {
            CompletionState::Ready(p, _) => Work::Start(p.clone()),
            CompletionState::Processing(_) => Work::Pull,
            CompletionState::Closing => Work::Respond,
            CompletionState::Done => Work::Park,
        }
    }

    pub fn is_terminal(&self) -> (r: bool)
        ensures
            r == (self@ is Done),
    {
        matches!(self, CompletionState::Done)
    }
}

fn response_of(out: MatchOutcome) -> (r: (CompletionResponse, bool))
    ensures
        r.0@ == Reply::Text(out.text_view()),
        r.1 == out.is_stop(),
{
    match out {
        MatchOutcome::Text(t) => (CompletionResponse::Text(t), false),
        MatchOutcome::Stop(t) => (CompletionResponse::Text(t), true),
    }
}

/// Passes one unit through the matcher of a streaming engine.
fn consume_unit(mut matcher: StopMatcher, unit: &str) -> (r: (CompletionResponse, CompletionState))
    requires
        matcher@.wf(),
    ensures
        (r.1@, r.0@) == consume(matcher@, unit@),
{
    let ghost mv = matcher@;
    let out = matcher.push(unit);
    let (resp, stopped) = response_of(out);
    if stopped {
        let empty = match &resp {
            CompletionResponse::Text(t) => t.unicode_len() == 0,
            _ => true,
        };
        if empty {
            (CompletionResponse::Done, CompletionState::Done)
        } else {
            (resp, CompletionState::Closing)
        }
    } else {
        proof {
            assert(matcher@ == MatcherView {
                marker: mv.marker,
                pending: feed(mv.marker, mv.pending, unit@).pending,
            });
        }
        (resp, CompletionState::Processing(matcher))
    }
}

/// One activation of request `id`'s engine, given what its outside work gave
/// (`Work` says which work that is). Yields at most one event, tagged with
/// `id`, and the next state; a terminal engine yields nothing and stays terminal.
pub fn run_completion(id: usize, state: CompletionState, pulled: Pulled) -> (r: (
    Option<(usize, CompletionResponse)>,
    CompletionState,
))
    requires
        state.wf(),
    ensures
        r.1@ == activation(state@, pulled@).0,
        reply_of(r.0, id) == activation(state@, pulled@).1,
        r.0 matches Some((i, _)) ==> i == id,
        r.1.wf(),
{
    proof {
        lemma_activation_wf(state@, pulled@);
    }
    match state {
        CompletionState::Ready(_, marker) => match pulled {
            Pulled::Failed(e) => (Some((id, CompletionResponse::Error(e))), CompletionState::Done),
            Pulled::Exhausted => (Some((id, CompletionResponse::Done)), CompletionState::Done),
            Pulled::Unit(u) => {
                let matcher = StopMatcher::new(marker.as_str());
                let (resp, next) = consume_unit(matcher, u.as_str());
                (Some((id, resp)), next)
            },
        },
        CompletionState::Processing(mut matcher) => match pulled {
            Pulled::Failed(e) => (Some((id, CompletionResponse::Error(e))), CompletionState::Done),
            Pulled::Exhausted => {
                let rest = matcher.finish();
                if rest.unicode_len() == 0 {
                    (Some((id, CompletionResponse::Done)), CompletionState::Done)
                } else {
                    (Some((id, CompletionResponse::Text(rest))), CompletionState::Closing)
                }
            },
            Pulled::Unit(u) => {
                let (resp, next) = consume_unit(matcher, u.as_str());
                (Some((id, resp)), next)
            },
        },
        CompletionState::Closing => (Some((id, CompletionResponse::Done)), CompletionState::Done),
        CompletionState::Done => (None, CompletionState::Done),
    }
}

} // verus!

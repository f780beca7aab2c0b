use vstd::prelude::*;
use vstd::string::*;

verus! {

/// `s` and `m` hold the same character at every position that both have,
/// so one of them is a prefix of the other.
pub open spec fn agrees(s: Seq<char>, m: Seq<char>) -> bool {
    forall|k: int| 0 <= k < s.len() && k < m.len() ==> s[k] == m[k]
}

/// The first position at or after `i` from which the rest of `t` agrees with
/// the marker `m`; `t.len()` when there is none.
pub open spec fn first_live(t: Seq<char>, m: Seq<char>, i: int) -> int
    decreases t.len() - i,
{
    if i >= t.len() {
        t.len() as int
    } else if agrees(t.skip(i), m) {
        i
    } else {
        first_live(t, m, i + 1)
    }
}

/// The position `first_live` finds lies in `i..=t.len()`, and the text from
/// there agrees with the marker unless it is the end.
pub proof fn lemma_first_live(t: Seq<char>, m: Seq<char>, i: int)
    requires
        0 <= i,
    ensures
        i <= first_live(t, m, i) <= t.len() || (i > t.len() && first_live(t, m, i) == t.len()),
        first_live(t, m, i) < t.len() ==> agrees(t.skip(first_live(t, m, i)), m),
        forall|j: int| i <= j < first_live(t, m, i) ==> !agrees(#[trigger] t.skip(j), m),
    decreases t.len() - i,
{
    if i < t.len() && !agrees(t.skip(i), m) {
        lemma_first_live(t, m, i + 1);
    }
}

/// What one round of matching decides: the text released to the consumer,
/// whether the marker was confirmed, and the undecided tail kept back.
pub struct MatchStep {
    pub emitted: Seq<char>,
    pub stopped: bool,
    pub pending: Option<Seq<char>>,
}

/// A chunk seen from a clean state: text before the first position that could
/// start the marker is released; from there on the text is either the whole
/// marker (stop) or a proper prefix of it (held back).
pub open spec fn scan(t: Seq<char>, m: Seq<char>) -> MatchStep {
    let i = first_live(t, m, 0);
    if i == t.len() {
        MatchStep { emitted: t, stopped: false, pending: None }
    } else if m.len() <= t.len() - i {
        MatchStep { emitted: t.take(i), stopped: true, pending: None }
    } else {
        MatchStep { emitted: t.take(i), stopped: false, pending: Some(t.skip(i)) }
    }
}

/// One chunk fed to a matcher whose held-back tail is `pending`.
pub open spec fn feed(m: Seq<char>, pending: Option<Seq<char>>, chunk: Seq<char>) -> MatchStep {
    match pending {
        None => scan(chunk, m),
        Some(s) => {
            let joined = s + chunk;
            if agrees(joined, m) {
                if joined.len() < m.len() {
                    MatchStep { emitted: Seq::empty(), stopped: false, pending: Some(joined) }
                } else {
                    MatchStep { emitted: Seq::empty(), stopped: true, pending: None }
                }
            } else {
                let r = scan(chunk, m);
                MatchStep { emitted: s + r.emitted, stopped: r.stopped, pending: r.pending }
            }
        },
    }
}

/// A held-back tail: non-empty, shorter than the marker, and a prefix of it.
pub open spec fn is_partial(p: Seq<char>, m: Seq<char>) -> bool {
    0 < p.len() < m.len() && agrees(p, m)
}

/// The matcher over a sequence of chunks, up to and including the chunk that
/// confirms the marker.
pub open spec fn run(m: Seq<char>, pending: Option<Seq<char>>, chunks: Seq<Seq<char>>) -> MatchStep
    decreases chunks.len(),
{
    if chunks.len() == 0 {
        MatchStep { emitted: Seq::empty(), stopped: false, pending }
    } else {
        let s = feed(m, pending, chunks[0]);
        if s.stopped {
            s
        } else {
            let rest = run(m, s.pending, chunks.drop_first());
            MatchStep { emitted: s.emitted + rest.emitted, stopped: rest.stopped, pending: rest.pending }
        }
    }
}

pub open spec fn held(p: Option<Seq<char>>) -> Seq<char> {
    match p {
        Some(s) => s,
        None => Seq::empty(),
    }
}

/// One round keeps the held-back tail a proper partial marker. Until it stops,
/// the released text followed by the new tail is exactly the old tail followed
/// by the chunk; when it stops, the released text followed by the marker begins
/// the old tail followed by the chunk.
pub proof fn lemma_feed(m: Seq<char>, pending: Option<Seq<char>>, c: Seq<char>)
    requires
        (MatcherView { marker: m, pending }).wf(),
    ensures
        (MatcherView { marker: m, pending: feed(m, pending, c).pending }).wf(),
        !feed(m, pending, c).stopped ==> held(pending) + c == feed(m, pending, c).emitted + held(
            feed(m, pending, c).pending,
        ),
        feed(m, pending, c).stopped ==> feed(m, pending, c).pending is None && (feed(
            m,
            pending,
            c,
        ).emitted + m).is_prefix_of(held(pending) + c),
{
    lemma_scan(c, m);
    let r = scan(c, m);
    match pending {
        None => {
            assert(held(pending) + c =~= c);
        },
        Some(s) => {
            let joined = s + c;
            if agrees(joined, m) {
                if joined.len() >= m.len() {
                    assert((Seq::<char>::empty() + m) =~= m);
                    assert(m =~= joined.subrange(0, m.len() as int));
                }
            } else {
                if r.stopped {
                    assert((s + r.emitted + m) =~= s + (r.emitted + m));
                    assert((s + c).subrange(0, (s + r.emitted + m).len() as int) =~= s + c.subrange(
                        0,
                        (r.emitted + m).len() as int,
                    ));
                } else {
                    assert(s + r.emitted + held(r.pending) =~= s + (r.emitted + held(r.pending)));
                }
            }
        },
    }
}

/// The clean-state scan of a chunk, in the terms of `lemma_feed`.
pub proof fn lemma_scan(t: Seq<char>, m: Seq<char>)
    requires
        m.len() > 0,
    ensures
        scan(t, m).pending matches Some(p) ==> is_partial(p, m),
        !scan(t, m).stopped ==> t == scan(t, m).emitted + held(scan(t, m).pending),
        scan(t, m).stopped ==> scan(t, m).pending is None && (scan(t, m).emitted + m).is_prefix_of(
            t,
        ),
{
    lemma_first_live(t, m, 0);
    let i = first_live(t, m, 0);
    if i == t.len() {
        assert(t + Seq::<char>::empty() =~= t);
    } else if m.len() <= t.len() - i {
        let e = t.take(i);
        assert(t.skip(i)[0] == t[i]);
        assert((e + m) =~= t.subrange(0, (e + m).len() as int)) by {
            assert forall|k: int| 0 <= k < (e + m).len() implies (e + m)[k] == t[k] by {
                if k >= i {
                    assert(t.skip(i)[k - i] == t[k]);
                }
            }
        }
    } else {
        assert(t =~= t.take(i) + t.skip(i));
    }
}

/// No text is lost or repeated: as long as the marker has not been confirmed,
/// the text released so far followed by the tail still held back is exactly
/// the held-back tail at the start followed by every chunk fed since.
pub proof fn lemma_run_keeps_all_text(m: Seq<char>, pending: Option<Seq<char>>, chunks: Seq<Seq<char>>)
    requires
        (MatcherView { marker: m, pending }).wf(),
    ensures
        !run(m, pending, chunks).stopped ==> held(pending) + chunks.flatten() == run(
            m,
            pending,
            chunks,
        ).emitted + held(run(m, pending, chunks).pending),
    decreases chunks.len(),
{
    if chunks.len() == 0 {
        assert(held(pending) + chunks.flatten() =~= Seq::<char>::empty() + held(pending));
    } else {
        let c = chunks[0];
        let st = feed(m, pending, c);
        lemma_feed(m, pending, c);
        if !st.stopped {
            let tail = chunks.drop_first();
            lemma_run_keeps_all_text(m, st.pending, tail);
            let rest = run(m, st.pending, tail);
            if !rest.stopped {
                assert(chunks.flatten() == c + tail.flatten());
                assert(held(pending) + chunks.flatten() =~= (held(pending) + c) + tail.flatten());
                assert(st.emitted + held(st.pending) + tail.flatten() =~= st.emitted + (held(
                    st.pending,
                ) + tail.flatten()));
                assert(st.emitted + (rest.emitted + held(rest.pending)) =~= (st.emitted
                    + rest.emitted) + held(rest.pending));
            }
        }
    }
}

/// A held-back partial marker whose continuation in the stream completes the
/// marker is confirmed, and nothing more is released.
proof fn lemma_run_completes_marker(
    m: Seq<char>,
    q: Seq<char>,
    rest: Seq<char>,
    chunks: Seq<Seq<char>>,
)
    requires
        is_partial(q, m),
        q + chunks.flatten() == m + rest,
    ensures
        run(m, Some(q), chunks).stopped,
        run(m, Some(q), chunks).emitted.len() == 0,
    decreases chunks.len(),
{
    if chunks.len() == 0 {
        assert(q + chunks.flatten() =~= q);
        assert((m + rest).len() >= m.len());
    } else {
        let c = chunks[0];
        let tail = chunks.drop_first();
        assert(chunks.flatten() == c + tail.flatten());
        let joined = q + c;
        assert forall|k: int| 0 <= k < joined.len() && k < m.len() implies joined[k] == m[k] by {
            assert(joined[k] == (q + chunks.flatten())[k]);
            assert((m + rest)[k] == m[k]);
        }
        if joined.len() < m.len() {
            assert(joined + tail.flatten() =~= q + chunks.flatten());
            lemma_run_completes_marker(m, joined, rest, tail);
        }
    }
}

/// The stop marker never leaks: when the stream is some text in which no
/// character could start the marker, then the marker, then anything at all,
/// the matcher releases exactly that text and stops on the chunk that
/// completes the marker, however the stream is cut into chunks.
pub proof fn lemma_marker_never_leaks(
    m: Seq<char>,
    p: Seq<char>,
    rest: Seq<char>,
    chunks: Seq<Seq<char>>,
)
    requires
        m.len() > 0,
        forall|k: int| 0 <= k < p.len() ==> p[k] != m[0],
        chunks.flatten() == p + m + rest,
    ensures
        run(m, None, chunks).stopped,
        run(m, None, chunks).emitted == p,
    decreases chunks.len(),
{
    let all = p + m + rest;
    if chunks.len() == 0 {
        assert(all.len() > 0);
    } else {
        let c = chunks[0];
        let tail = chunks.drop_first();
        assert(chunks.flatten() == c + tail.flatten());
        lemma_first_live(c, m, 0);
        let i = first_live(c, m, 0);
        assert forall|k: int| 0 <= k < c.len() implies c[k] == all[k] by {
            assert((c + tail.flatten())[k] == c[k]);
        }
        if i < c.len() && i < p.len() {
            assert(c.skip(i)[0] == c[i]);
            assert(all[i] == p[i]);
        }
        if c.len() <= p.len() {
            assert(i == c.len());
            assert(tail.flatten() =~= p.skip(c.len() as int) + m + rest) by {
                assert(all =~= c + tail.flatten());
                assert forall|k: int| 0 <= k < tail.flatten().len() implies tail.flatten()[k] == (
                p.skip(c.len() as int) + m + rest)[k] by {
                    assert(all[c.len() + k] == (c + tail.flatten())[c.len() + k]);
                }
            }
            lemma_marker_never_leaks(m, p.skip(c.len() as int), rest, tail);
            assert(c =~= p.take(c.len() as int));
            assert(c + p.skip(c.len() as int) =~= p);
        } else {
            let n = p.len() as int;
            assert(agrees(c.skip(n), m)) by {
                assert forall|k: int| 0 <= k < c.skip(n).len() && k < m.len() implies c.skip(n)[k]
                    == m[k] by {
                    assert(c.skip(n)[k] == c[n + k]);
                    assert(all[n + k] == m[k]);
                }
            }
            assert(i == n);
            assert(c.take(n) =~= p) by {
                assert forall|k: int| 0 <= k < n implies c.take(n)[k] == p[k] by {
                    assert(all[k] == p[k]);
                }
            }
            if m.len() > c.len() - n {
                let q = c.skip(n);
                assert(q + tail.flatten() =~= m + rest) by {
                    assert(all =~= c + tail.flatten());
                    assert forall|k: int| 0 <= k < (m + rest).len() implies (q + tail.flatten())[k]
                        == (m + rest)[k] by {
                        assert(all[n + k] == (c + tail.flatten())[n + k]);
                        if k < q.len() {
                            assert(q[k] == c[n + k]);
                        }
                    }
                }
                lemma_run_completes_marker(m, q, rest, tail);
                assert(p + run(m, Some(q), tail).emitted =~= p);
            }
        }
    }
}

pub struct MatcherView {
    pub marker: Seq<char>,
    pub pending: Option<Seq<char>>,
}

/// Incremental detector of a stop marker that may be split across chunks.
pub struct StopMatcher {
    marker: String,
    pending: Option<String>,
}

/// The outcome of feeding one chunk: text to release, and whether the marker
/// has been seen (in which case the text is everything before it).
pub enum MatchOutcome {
    Text(String),
    Stop(String),
}

impl View for StopMatcher {
    type V = MatcherView;

    closed spec fn view(&self) -> MatcherView {
        MatcherView {
            marker: self.marker@,
            pending: match self.pending {
                Some(p) => Some(p@),
                None => None,
            },
        }
    }
}

impl MatcherView {
    pub open spec fn wf(self) -> bool {
        &&& self.marker.len() > 0
        &&& (self.pending matches Some(p) ==> is_partial(p, self.marker))
    }
}

impl MatchOutcome {
    pub open spec fn text_view(&self) -> Seq<char> {
        match self {
            MatchOutcome::Text(t) => t@,
            MatchOutcome::Stop(t) => t@,
        }
    }

    pub open spec fn is_stop(&self) -> bool {
        self is Stop
    }
}

/// Whether the rest of `t` from char position `i` agrees with `m`.
fn agrees_from(t: &str, tlen: usize, i: usize, m: &str, mlen: usize) -> (r: bool)
    requires
        tlen == t@.len(),
        mlen == m@.len(),
        i <= tlen,
    ensures
        r == agrees(t@.skip(i as int), m@),
{
    let mut k: usize = 0;
    while i + k < tlen && k < mlen
        invariant
            tlen == t@.len(),
            mlen == m@.len(),
            i <= tlen,
            k <= mlen,
            i + k <= tlen,
            forall|j: int| 0 <= j < k ==> t@[i + j] == m@[j],
        decreases mlen - k,
    {
        if t.get_char(i + k) != m.get_char(k) {
            assert(t@.skip(i as int)[k as int] == t@[i + k]);
            return false;
        }
        k = k + 1;
    }
    assert forall|j: int| 0 <= j < t@.skip(i as int).len() && j < m@.len() implies t@.skip(
        i as int,
    )[j] == m@[j] by {
        assert(t@.skip(i as int)[j] == t@[i + j]);
    }
    true
}

/// The first char position of `t` from which the rest agrees with `m`.
fn first_live_pos(t: &str, tlen: usize, m: &str, mlen: usize) -> (r: usize)
    requires
        tlen == t@.len(),
        mlen == m@.len(),
    ensures
        r as int == first_live(t@, m@, 0),
        r <= tlen,
{
    let mut i: usize = 0;
    while i < tlen
        invariant
            tlen == t@.len(),
            mlen == m@.len(),
            i <= tlen,
            first_live(t@, m@, 0) == first_live(t@, m@, i as int),
        decreases tlen - i,
    {
        if agrees_from(t, tlen, i, m, mlen) {
            return i;
        }
        i = i + 1;
    }
    i
}

/// Runs the clean-state scan of `scan` on `t`.
fn scan_chunk(t: &str, m: &str) -> (r: (MatchOutcome, Option<String>))
    requires
        m@.len() > 0,
    ensures
        r.0.text_view() == scan(t@, m@).emitted,
        r.0.is_stop() == scan(t@, m@).stopped,
        (match r.1 {
            Some(p) => Some(p@),
            None => None,
        }) == scan(t@, m@).pending,
        r.1 matches Some(p) ==> is_partial(p@, m@),
{
    let tlen = t.unicode_len();
    let mlen = m.unicode_len();
    let i = first_live_pos(t, tlen, m, mlen);
    proof {
        lemma_first_live(t@, m@, 0);
    }
    if i == tlen {
        (MatchOutcome::Text(t.to_owned()), None)
    } else {
        let before = t.substring_char(0, i).to_owned();
        assert(t@.subrange(0, i as int) =~= t@.take(i as int));
        if mlen <= tlen - i {
            (MatchOutcome::Stop(before), None)
        } else {
            let after = t.substring_char(i, tlen).to_owned();
            assert(t@.subrange(i as int, tlen as int) =~= t@.skip(i as int));
            (MatchOutcome::Text(before), Some(after))
        }
    }
}

impl StopMatcher {
    pub open spec fn wf(&self) -> bool {
        self@.wf()
    }

    /// A matcher for `marker` with nothing held back.
    pub fn new(marker: &str) -> (r: StopMatcher)
        requires
            marker@.len() > 0,
        ensures
            r.wf(),
            r@.marker == marker@,
            r@.pending is None,
    {
        StopMatcher { marker: marker.to_owned(), pending: None }
    }

    pub fn marker(&self) -> (r: &str)
        ensures
            r@ == self@.marker,
    {
        self.marker.as_str()
    }

    /// The text currently held back as a possible start of the marker.
    pub fn pending(&self) -> (r: Option<&str>)
        ensures
            match r {
                Some(p) => self@.pending == Some(p@),
                None => self@.pending is None,
            },
    {
        match &self.pending {
            Some(p) => Some(p.as_str()),
            None => None,
        }
    }

    /// Feeds one chunk of output. The text returned is safe to show; `Stop`
    /// means the marker was completed, and its text is what preceded it.
    pub fn push(&mut self, chunk: &str) -> (r: MatchOutcome)
        requires
            old(self).wf(),
        ensures
            final(self).wf(),
            final(self)@.marker == old(self)@.marker,
            r.text_view() == feed(old(self)@.marker, old(self)@.pending, chunk@).emitted,
            r.is_stop() == feed(old(self)@.marker, old(self)@.pending, chunk@).stopped,
            final(self)@.pending == feed(old(self)@.marker, old(self)@.pending, chunk@).pending,
    {
        let held = self.pending.take();
        match held {
            None => {
                let (out, p) = scan_chunk(chunk, self.marker.as_str());
                self.pending = p;
                out
            },
            Some(s) => {
                let joined = s.clone().concat(chunk);
                let jlen = joined.unicode_len();
                let mlen = self.marker.unicode_len();
                let ok = agrees_from(joined.as_str(), jlen, 0, self.marker.as_str(), mlen);
                assert(joined@.skip(0) =~= joined@);
                if ok {
                    if jlen < mlen {
                        self.pending = Some(joined);
                        MatchOutcome::Text(String::new())
                    } else {
                        MatchOutcome::Stop(String::new())
                    }
                } else {
                    let (out, p) = scan_chunk(chunk, self.marker.as_str());
                    self.pending = p;
                    match out {
                        MatchOutcome::Text(t) => MatchOutcome::Text(s.concat(t.as_str())),
                        MatchOutcome::Stop(t) => MatchOutcome::Stop(s.concat(t.as_str())),
                    }
                }
            },
        }
    }

    /// End of output: whatever was held back never became the marker, so it is
    /// released as ordinary text, and the matcher is left clean.
    pub fn finish(&mut self) -> (r: String)
        requires
            old(self).wf(),
        ensures
            final(self).wf(),
            final(self)@.marker == old(self)@.marker,
            final(self)@.pending is None,
            r@ == held(old(self)@.pending),
    {
        match self.pending.take() {
            Some(p) => p,
            None => String::new(),
        }
    }
}

} // verus!

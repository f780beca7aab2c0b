use vstd::prelude::*;
use vstd::string::*;

use crate::completions::{CompletionRequestState, CompletionResponse, Reply};

verus! {

/// One submitted request as the consumer tracks it. Its id is its position in
/// the registry.
pub struct CompletionRequest {
    pub id: usize,
    pub input: String,
    pub state: CompletionRequestState,
    pub output: String,
}

pub struct RequestView {
    pub input: Seq<char>,
    pub state: CompletionRequestState,
    pub output: Seq<char>,
}

impl View for CompletionRequest {
    type V = RequestView;

    open spec fn view(&self) -> RequestView {
        RequestView { input: self.input@, state: self.state, output: self.output@ }
    }
}

impl CompletionRequest {
    /// A request that has just begun processing, with no output yet.
    pub fn new(id: usize, input: &str) -> (r: CompletionRequest)
        ensures
            r.id == id,
            r@ == (RequestView {
                input: input@,
                state: CompletionRequestState::Processing,
                output: Seq::empty(),
            }),
    {
        CompletionRequest {
            id,
            input: input.to_owned(),
            state: CompletionRequestState::Processing,
            output: String::new(),
        }
    }
}

/// An event applied to a request: text is appended and an error's message too,
/// `Error` and `Done` end it, and a request that has ended takes nothing more.
pub open spec fn after_reply(r: RequestView, reply: Reply) -> RequestView {
    if r.state != CompletionRequestState::Processing {
        r
    } else {
        match reply {
            Reply::Text(t) => RequestView { output: r.output + t, ..r },
            Reply::Error(e) => RequestView {
                output: r.output + e,
                state: CompletionRequestState::Error,
                ..r
            },
            Reply::Done => RequestView { state: CompletionRequestState::Done, ..r },
        }
    }
}

/// A request submitted to the registry: it gets the next id, which is the
/// number of requests before it.
pub open spec fn after_submit(reqs: Seq<RequestView>, input: Seq<char>) -> Seq<RequestView> {
    reqs.push(RequestView { input, state: CompletionRequestState::Processing, output: Seq::empty() })
}

/// An event for request `id`: dropped when there is no such request.
pub open spec fn after_event(reqs: Seq<RequestView>, id: int, reply: Reply) -> Seq<RequestView> {
    if 0 <= id < reqs.len() {
        reqs.update(id, after_reply(reqs[id], reply))
    } else {
        reqs
    }
}

/// What can happen to the registry: a submission, or an event for an id.
pub enum RegistryOp {
    Submit(Seq<char>),
    Event(int, Reply),
}

/// The registry after `ops`, and the ids handed out by the submissions among them.
pub open spec fn replay(reqs: Seq<RequestView>, ops: Seq<RegistryOp>) -> (Seq<RequestView>, Seq<int>)
    decreases ops.len(),
{
    if ops.len() == 0 {
        (reqs, Seq::empty())
    } else {
        match ops[0] {
            RegistryOp::Submit(input) => {
                let (end, ids) = replay(after_submit(reqs, input), ops.drop_first());
                (end, seq![reqs.len() as int] + ids)
            },
            RegistryOp::Event(id, reply) => replay(after_event(reqs, id, reply), ops.drop_first()),
        }
    }
}

/// Ids never repeat and only grow: whatever events come in between and in
/// whatever order requests finish, the submissions of a run get strictly
/// increasing ids, each at least the number of requests at its start and
/// below the number at its end.
pub proof fn lemma_ids_increase(reqs: Seq<RequestView>, ops: Seq<RegistryOp>)
    ensures
        forall|a: int, b: int|
            0 <= a < b < replay(reqs, ops).1.len() ==> replay(reqs, ops).1[a] < replay(
                reqs,
                ops,
            ).1[b],
        forall|a: int|
            0 <= a < replay(reqs, ops).1.len() ==> reqs.len() <= #[trigger] replay(reqs, ops).1[a]
                < replay(reqs, ops).0.len(),
        reqs.len() <= replay(reqs, ops).0.len(),
    decreases ops.len(),
{
    if ops.len() > 0 {
        match ops[0] {
            RegistryOp::Submit(input) => {
                let next = after_submit(reqs, input);
                lemma_ids_increase(next, ops.drop_first());
                let ids = replay(next, ops.drop_first()).1;
                let all = seq![reqs.len() as int] + ids;
                assert forall|a: int| 0 < a < all.len() implies all[a] == ids[a - 1] by {}
            },
            RegistryOp::Event(id, reply) => {
                lemma_ids_increase(after_event(reqs, id, reply), ops.drop_first());
            },
        }
    }
}

/// Requests by id; ids are handed out in order from zero.
pub struct RequestRegistry {
    requests: Vec<CompletionRequest>,
}

impl View for RequestRegistry {
    type V = Seq<RequestView>;

    closed spec fn view(&self) -> Seq<RequestView> {
        self.requests@.map_values(|r: CompletionRequest| r@)
    }
}

impl RequestRegistry {
    /// Each request sits at the position of its id.
    pub closed spec fn wf(&self) -> bool {
        forall|k: int| 0 <= k < self.requests@.len() ==> (#[trigger] self.requests@[k]).id == k
    }

    pub fn new() -> (r: RequestRegistry)
        ensures
            r@.len() == 0,
            r.wf(),
    {
        let r = RequestRegistry { requests: Vec::new() };
        assert(r@ =~= Seq::empty());
        r
    }

    /// The id the next submission will get.
    pub fn next_id(&self) -> (r: usize)
        ensures
            r == self@.len(),
    {
        self.requests.len()
    }

    /// Records a new request for `input` and returns its id.
    pub fn submit(&mut self, input: &str) -> (id: usize)
        requires
            old(self).wf(),
            old(self)@.len() < usize::MAX,
        ensures
            final(self).wf(),
            id == old(self)@.len(),
            final(self)@ == after_submit(old(self)@, input@),
    {
        let id = self.requests.len();
        let req = CompletionRequest::new(id, input);
        self.requests.push(req);
        assert(self@ =~= after_submit(old(self)@, input@));
        id
    }

    /// The ids of the requests still being processed, in increasing order:
    /// the ones whose engines still need driving.
    pub fn processing(&self) -> (r: Vec<usize>)
        requires
            self.wf(),
        ensures
            forall|i: int|
                0 <= i < r@.len() ==> #[trigger] r@[i] < self@.len() && self@[r@[i] as int].state
                    == CompletionRequestState::Processing,
            forall|i: int, j: int| 0 <= i < j < r@.len() ==> r@[i] < r@[j],
            forall|k: int|
                0 <= k < self@.len() && (#[trigger] self@[k]).state
                    == CompletionRequestState::Processing ==> r@.contains(k as usize),
    {
        let mut r: Vec<usize> = Vec::new();
        let mut k: usize = 0;
        while k < self.requests.len()
            invariant
                k <= self@.len(),
                self@.len() == self.requests@.len(),
                forall|i: int|
                    0 <= i < r@.len() ==> #[trigger] r@[i] < k && self@[r@[i] as int].state
                        == CompletionRequestState::Processing,
                forall|i: int, j: int| 0 <= i < j < r@.len() ==> r@[i] < r@[j],
                forall|m: int|
                    0 <= m < k && (#[trigger] self@[m]).state == CompletionRequestState::Processing
                        ==> r@.contains(m as usize),
            decreases self.requests.len() - k,
        {
            assert(self@[k as int] == self.requests@[k as int]@);
            if self.requests[k].state == CompletionRequestState::Processing {
                let ghost before = r@;
                r.push(k);
                assert forall|m: int|
                    0 <= m <= k && (#[trigger] self@[m]).state == CompletionRequestState::Processing
                    implies r@.contains(m as usize) by {
                    if m < k {
                        let w = choose|w: int| 0 <= w < before.len() && before[w] == m as usize;
                        assert(r@[w] == m as usize);
                    } else {
                        assert(r@[before.len() as int] == k);
                    }
                }
            }
            k = k + 1;
        }
        r
    }

    /// The request with this id, if there is one.
    pub fn get(&self, id: usize) -> (r: Option<&CompletionRequest>)
        requires
            self.wf(),
        ensures
            match r {
                Some(req) => id < self@.len() && req@ == self@[id as int] && req.id == id,
                None => id >= self@.len(),
            },
    {
        if id < self.requests.len() {
            Some(&self.requests[id])
        } else {
            None
        }
    }

    /// Applies an event of request `id`. Returns false, changing nothing, when
    /// there is no such request.
    pub fn respond(&mut self, id: usize, response: &CompletionResponse) -> (found: bool)
        requires
            old(self).wf(),
        ensures
            final(self).wf(),
            found == (id < old(self)@.len()),
            final(self)@ == after_event(old(self)@, id as int, response@),
    {
        if id >= self.requests.len() {
            return false;
        }
        let ghost before = self@;
        let mut req = self.requests.remove(id);
        let ghost rv = req@;
        assert(rv == before[id as int]);
        if req.state == CompletionRequestState::Processing {
            match response {
                CompletionResponse::Text(t) => {
                    req.output.append(t.as_str());
                },
                CompletionResponse::Error(e) => {
                    req.output.append(e.as_str());
                    req.state = CompletionRequestState::Error;
                },
                CompletionResponse::Done => {
                    req.state = CompletionRequestState::Done;
                },
            }
        }
        assert(req@ == after_reply(rv, response@));
        self.requests.insert(id, req);
        assert(self@ =~= after_event(before, id as int, response@));
        true
    }
}

} // verus!

use vstd::prelude::*;
use vstd::string::*;

use crate::chat::{
    bundled, pairs, prompt_or_input, render_ok, rendered, role_name, ChatMessage, ChatTemplate,
    ChatTemplater, Sender,
};
use crate::completions::CompletionResponse;
use crate::message::{conversation_for, included, MessageContainer};
use crate::requests::{after_event, after_submit, RequestRegistry, RequestView};

verus! {

/// The input with leading and trailing whitespace removed.
pub uninterp spec fn trimmed(s: Seq<char>) -> Seq<char>;

/// Relies on str::trim: the input without leading and trailing whitespace.
#[verifier::external_body]
fn trim(s: &str) -> (r: &str)
    ensures
        r@ == trimmed(s@),
{
    s.trim()
}

/// The (role, content) pairs of the conversation sent for a new user turn.
pub open spec fn turn_pairs(system: Seq<char>, history: Seq<MessageContainer>, input: Seq<char>) -> Seq<
    (Seq<char>, Seq<char>),
> {
    (seq![(Sender::System, system)] + included(history) + seq![(Sender::User, input)]).map_values(
        |p: (Sender, Seq<char>)| (role_name(p.0), p.1),
    )
}

/// Every message that a request fills names a registered request and shows
/// that request's output so far.
pub open spec fn consistent(msgs: Seq<MessageContainer>, reqs: Seq<RequestView>) -> bool {
    forall|j: int|
        0 <= j < msgs.len() && (#[trigger] msgs[j]).completion_request is Some ==> {
            let id = msgs[j].completion_request->0;
            &&& id < reqs.len()
            &&& msgs[j].text@ == reqs[id as int].output
        }
}

/// A user turn recorded after `before`: the earlier messages stay as they
/// were, then come the user's message and an empty reply filled by request
/// `id`, both taking part in later requests.
pub open spec fn turn_recorded(
    before: Seq<MessageContainer>,
    after: Seq<MessageContainer>,
    input: Seq<char>,
    id: usize,
) -> bool {
    &&& after.len() == before.len() + 2
    &&& after.take(before.len() as int) == before
    &&& after[before.len() as int].text@ == input
    &&& after[before.len() as int].sender == Sender::User
    &&& after[before.len() as int].completion_request is None
    &&& after[before.len() as int].include_in_completion
    &&& after[before.len() + 1int].text@.len() == 0
    &&& after[before.len() + 1int].sender == Sender::Assistant
    &&& after[before.len() + 1int].completion_request == Some(id)
    &&& after[before.len() + 1int].include_in_completion
}

/// The prompt sent for a user turn: the conversation rendered with
/// `template` when that succeeds, else the raw input.
pub open spec fn turn_prompt(
    template: ChatTemplate,
    system: Seq<char>,
    history: Seq<MessageContainer>,
    input: Seq<char>,
) -> Seq<char> {
    let conv = turn_pairs(system, history, input);
    if render_ok(bundled(), template.name(), conv, template.bos()) {
        rendered(bundled(), template.name(), conv, template.bos())
    } else {
        input
    }
}

/// The messages shown in a chat and the requests that fill its replies.
pub struct Transcript {
    messages: Vec<MessageContainer>,
    requests: RequestRegistry,
}

impl Transcript {
    pub closed spec fn wf(&self) -> bool {
        self.requests.wf() && consistent(self.messages@, self.requests@)
    }

    pub closed spec fn messages_view(&self) -> Seq<MessageContainer> {
        self.messages@
    }

    pub closed spec fn requests_view(&self) -> Seq<RequestView> {
        self.requests@
    }

    /// A transcript that opens with an assistant greeting, kept out of the
    /// context of requests.
    pub fn new(greeting: &str) -> (r: Transcript)
        ensures
            r.wf(),
            consistent(r.messages_view(), r.requests_view()),
            r.requests_view().len() == 0,
            r.messages_view().len() == 1,
            r.messages_view()[0].text@ == greeting@,
            r.messages_view()[0].sender == Sender::Assistant,
            r.messages_view()[0].completion_request is None,
            !r.messages_view()[0].include_in_completion,
    {
        let mut messages: Vec<MessageContainer> = Vec::new();
        messages.push(MessageContainer::new(greeting, Sender::Assistant, None, false));
        Transcript { messages, requests: RequestRegistry::new() }
    }

    pub fn messages(&self) -> (r: &Vec<MessageContainer>)
        ensures
            r@ == self.messages_view(),
    {
        &self.messages
    }

    pub fn requests(&self) -> (r: &RequestRegistry)
        ensures
            r@ == self.requests_view(),
            self.wf() ==> r.wf(),
    {
        &self.requests
    }

    /// Records a user turn sent as `prompt`: the user's message and a reply
    /// filled by the new request join the transcript, both as context for
    /// later turns. Returns the request's id.
    pub fn submit_prompt(&mut self, input: &str, prompt: &str) -> (id: usize)
        requires
            old(self).wf(),
            old(self).requests_view().len() < usize::MAX,
        ensures
            final(self).wf(),
            id == old(self).requests_view().len(),
            final(self).requests_view() == after_submit(old(self).requests_view(), prompt@),
            consistent(final(self).messages_view(), final(self).requests_view()),
            turn_recorded(old(self).messages_view(), final(self).messages_view(), input@, id),
    {
        let id = self.requests.submit(prompt);
        self.messages.push(MessageContainer::new(input, Sender::User, None, true));
        self.messages.push(MessageContainer::new("", Sender::Assistant, Some(id), true));
        proof {
            reveal_strlit("");
            assert(self.messages@.take(old(self).messages@.len() as int) =~= old(self).messages@);
            assert forall|j: int|
                0 <= j < self.messages@.len() && (#[trigger] self.messages@[j]).completion_request is Some
                implies {
                let i = self.messages@[j].completion_request->0;
                &&& i < self.requests@.len()
                &&& self.messages@[j].text@ == self.requests@[i as int].output
            } by {
                if j < old(self).messages@.len() {
                    assert(self.messages@[j] == old(self).messages@[j]);
                }
            }
        }
        id
    }

    /// A new user turn. Blank input is ignored (`None`, nothing changes).
    /// Otherwise the conversation (system preamble, the history that takes
    /// part, the input) is rendered with `template`, or, should rendering
    /// fail, the raw input is sent instead; the turn is recorded as by
    /// `submit_prompt`, and its id and prompt are returned.
    pub fn submit(
        &mut self,
        templater: &ChatTemplater,
        template: ChatTemplate,
        system: &str,
        input: &str,
    ) -> (r: Option<(usize, String)>)
        requires
            old(self).wf(),
            old(self).requests_view().len() < usize::MAX,
        ensures
            final(self).wf(),
            r is None <==> trimmed(input@).len() == 0,
            r is None ==> *final(self) == *old(self),
            consistent(final(self).messages_view(), final(self).requests_view()),
            r matches Some((id, prompt)) ==> {
                &&& id == old(self).requests_view().len()
                &&& prompt@ == turn_prompt(template, system@, old(self).messages_view(), input@)
                &&& final(self).requests_view() == after_submit(old(self).requests_view(), prompt@)
                &&& turn_recorded(old(self).messages_view(), final(self).messages_view(), input@, id)
            },
    {
        if trim(input).unicode_len() == 0 {
            return None;
        }
        let conversation = conversation_for(system, &self.messages, input);
        proof {
            let f = |m: ChatMessage| m.view_pair();
            let trio = seq![(Sender::System, system@)] + included(self.messages@) + seq![
                (Sender::User, input@),
            ];
            assert(conversation@.map_values(f) == trio);
            assert forall|k: int| 0 <= k < conversation@.len() implies pairs(conversation@)[k]
                == turn_pairs(system@, self.messages@, input@)[k] by {
                assert(conversation@.map_values(f)[k] == trio[k]);
            }
            assert(pairs(conversation@) =~= turn_pairs(system@, self.messages@, input@));
        }
        let prompt = prompt_or_input(templater.apply(template, conversation), input);
        let id = self.submit_prompt(input, prompt.as_str());
        Some((id, prompt))
    }

    /// Applies an event of request `id` to its record, and shows the
    /// request's output in every message it fills. An unknown id changes
    /// nothing and gives false.
    pub fn respond(&mut self, id: usize, response: &CompletionResponse) -> (found: bool)
        requires
            old(self).wf(),
        ensures
            final(self).wf(),
            found == (id < old(self).requests_view().len()),
            final(self).requests_view() == after_event(
                old(self).requests_view(),
                id as int,
                response@,
            ),
            consistent(final(self).messages_view(), final(self).requests_view()),
            final(self).messages_view().len() == old(self).messages_view().len(),
            forall|j: int|
                0 <= j < old(self).messages_view().len() ==> {
                    let before = #[trigger] old(self).messages_view()[j];
                    let after = final(self).messages_view()[j];
                    &&& after.sender == before.sender
                    &&& after.completion_request == before.completion_request
                    &&& after.include_in_completion == before.include_in_completion
                    &&& after.text@ == if found && before.completion_request == Some(id) {
                        final(self).requests_view()[id as int].output
                    } else {
                        before.text@
                    }
                },
    {
        let found = self.requests.respond(id, response);
        if !found {
            return false;
        }
        let output = match self.requests.get(id) {
            Some(req) => req.output.clone(),
            None => String::new(),
        };
        let ghost before = self.messages@;
        let ghost reqs = self.requests@;
        let mut j: usize = 0;
        while j < self.messages.len()
            invariant
                self.requests.wf(),
                self.requests@ == reqs,
                reqs == after_event(old(self).requests@, id as int, response@),
                id < self.requests@.len(),
                output@ == self.requests@[id as int].output,
                consistent(before, old(self).requests@),
                old(self).requests@.len() == reqs.len(),
                self.messages@.len() == before.len(),
                j <= before.len(),
                forall|k: int|
                    0 <= k < before.len() ==> {
                        let b = #[trigger] before[k];
                        let a = self.messages@[k];
                        &&& a.sender == b.sender
                        &&& a.completion_request == b.completion_request
                        &&& a.include_in_completion == b.include_in_completion
                        &&& a.text@ == if k < j && b.completion_request == Some(id) {
                            output@
                        } else {
                            b.text@
                        }
                    },
            decreases before.len() - j,
        {
            if self.messages[j].completion_request == Some(id) {
                let mut c = self.messages.remove(j);
                c.text = output.clone();
                self.messages.insert(j, c);
            }
            j = j + 1;
        }
        assert forall|k: int|
            0 <= k < self.messages@.len() && (#[trigger] self.messages@[k]).completion_request is Some
            implies {
            let i = self.messages@[k].completion_request->0;
            &&& i < self.requests@.len()
            &&& self.messages@[k].text@ == self.requests@[i as int].output
        } by {
            assert(before[k].completion_request == self.messages@[k].completion_request);
        }
        true
    }
}

} // verus!

use vstd::prelude::*;
use vstd::string::*;

use crate::chat::{ChatMessage, Sender};

verus! {

/// A message as the transcript shows it: its text, who wrote it, the id of the
/// request that fills it (for a reply being generated), and whether it is part
/// of the context of later requests.
pub struct MessageContainer {
    pub text: String,
    pub sender: Sender,
    pub completion_request: Option<usize>,
    pub include_in_completion: bool,
}

impl MessageContainer {
    pub fn new(
        message: &str,
        sender: Sender,
        completion_request: Option<usize>,
        include_in_completion: bool,
    ) -> (r: MessageContainer)
        ensures
            r.text@ == message@,
            r.sender == sender,
            r.completion_request == completion_request,
            r.include_in_completion == include_in_completion,
    {
        MessageContainer {
            text: message.to_owned(),
            sender,
            completion_request,
            include_in_completion,
        }
    }
}

impl ChatMessage {
    pub open spec fn view_pair(self) -> (Sender, Seq<char>) {
        (self.sender, self.text@)
    }
}

impl From<&MessageContainer> for ChatMessage {
    fn from(container: &MessageContainer) -> (r: ChatMessage) {
        ChatMessage { text: container.text.clone(), sender: container.sender }
    }
}

impl vstd::std_specs::convert::FromSpecImpl<&MessageContainer> for ChatMessage {
    open spec fn obeys_from_spec() -> bool {
        true
    }

    open spec fn from_spec(container: &MessageContainer) -> ChatMessage {
        ChatMessage { text: container.text, sender: container.sender }
    }
}

/// The messages of `history` that take part in later requests, in order, as
/// (sender, text).
pub open spec fn included(history: Seq<MessageContainer>) -> Seq<(Sender, Seq<char>)>
    decreases history.len(),
{
    if history.len() == 0 {
        Seq::empty()
    } else {
        let rest = included(history.drop_last());
        let last = history.last();
        if last.include_in_completion {
            rest.push((last.sender, last.text@))
        } else {
            rest
        }
    }
}

/// The conversation sent for a new user turn: the system preamble, the
/// included messages of the history in order, then the user's input.
pub fn conversation_for(system: &str, history: &Vec<MessageContainer>, input: &str) -> (r: Vec<
    ChatMessage,
>)
    ensures
        r@.map_values(|m: ChatMessage| m.view_pair()) == seq![(Sender::System, system@)]
            + included(history@) + seq![(Sender::User, input@)],
{
    let mut out: Vec<ChatMessage> = Vec::new();
    out.push(ChatMessage { text: system.to_owned(), sender: Sender::System });
    let mut i: usize = 0;
    while i < history.len()
        invariant
            i <= history@.len(),
            out@.map_values(|m: ChatMessage| m.view_pair()) == seq![(Sender::System, system@)]
                + included(history@.take(i as int)),
        decreases history.len() - i,
    {
        let c = &history[i];
        proof {
            assert(history@.take(i + 1).drop_last() =~= history@.take(i as int));
        }
        let ghost before = out@;
        assert(history@.take(i + 1).last() == history@[i as int]);
        if c.include_in_completion {
            let text = c.text.clone();
            out.push(ChatMessage { text, sender: c.sender });
            assert(out@.map_values(|m: ChatMessage| m.view_pair()) =~= before.map_values(
                |m: ChatMessage| m.view_pair(),
            ).push((c.sender, c.text@)));
            assert(out@.map_values(|m: ChatMessage| m.view_pair()) =~= seq![
                (Sender::System, system@),
            ] + included(history@.take(i + 1)));
        }
        i = i + 1;
    }
    assert(history@.take(i as int) =~= history@);
    let ghost before = out@;
    out.push(ChatMessage { text: input.to_owned(), sender: Sender::User });
    assert(out@.map_values(|m: ChatMessage| m.view_pair()) =~= before.map_values(
        |m: ChatMessage| m.view_pair(),
    ).push((Sender::User, input@)));
    assert(out@.map_values(|m: ChatMessage| m.view_pair()) =~= seq![(Sender::System, system@)]
        + included(history@) + seq![(Sender::User, input@)]);
    out
}

} // verus!

use tic::chat::{ChatTemplate, ChatTemplater, Sender};
use tic::completions::{CompletionRequestState, CompletionResponse};
use tic::transcript::Transcript;

#[test]
fn blank_input_is_ignored() {
    let templater = ChatTemplater::new().unwrap();
    let mut t = Transcript::new("hello");
    assert!(t.submit(&templater, ChatTemplate::Llama3, "sys", "   \n").is_none());
    assert_eq!(t.messages().len(), 1);
    assert_eq!(t.requests().next_id(), 0);
}

#[test]
fn submitted_turn_is_rendered_and_recorded() {
    let templater = ChatTemplater::new().unwrap();
    let mut t = Transcript::new("hello");
    let (id, prompt) = t.submit(&templater, ChatTemplate::Phi3, "Be kind", "Hi there").unwrap();
    assert_eq!(id, 0);
    assert_eq!(
        prompt,
        "<s><|system|>\nBe kind<|end|>\n<|user|>\nHi there<|end|>\n<|assistant|>\n"
    );
    assert_eq!(t.messages().len(), 3);
    assert_eq!(t.messages()[1].text, "Hi there");
    assert_eq!(t.messages()[1].sender, Sender::User);
    assert_eq!(t.messages()[2].completion_request, Some(0));
    assert_eq!(t.requests().get(0).unwrap().input, prompt);
}

#[test]
fn replies_fill_their_message_and_join_later_context() {
    let templater = ChatTemplater::new().unwrap();
    let mut t = Transcript::new("hello");
    let (id, _) = t.submit(&templater, ChatTemplate::Phi3, "S", "Q1").unwrap();
    assert!(t.respond(id, &CompletionResponse::Text("A".into())));
    assert!(t.respond(id, &CompletionResponse::Text("1".into())));
    assert!(t.respond(id, &CompletionResponse::Done));
    assert!(!t.respond(id + 1, &CompletionResponse::Done));
    assert_eq!(t.messages()[2].text, "A1");
    assert_eq!(t.requests().get(id).unwrap().state, CompletionRequestState::Done);
    let (id2, prompt) = t.submit(&templater, ChatTemplate::Phi3, "S", "Q2").unwrap();
    assert_eq!(id2, 1);
    assert_eq!(
        prompt,
        "<s><|system|>\nS<|end|>\n<|user|>\nQ1<|end|>\n<|assistant|>\nA1<|end|>\n<|user|>\nQ2<|end|>\n<|assistant|>\n"
    );
}

#[test]
fn events_leave_other_messages_alone() {
    let templater = ChatTemplater::new().unwrap();
    let mut t = Transcript::new("hello");
    let (first, _) = t.submit(&templater, ChatTemplate::Llama3, "S", "Q1").unwrap();
    assert!(t.respond(first, &CompletionResponse::Text("A".into())));
    let (second, _) = t.submit(&templater, ChatTemplate::Llama3, "S", "Q2").unwrap();
    assert!(t.respond(second, &CompletionResponse::Text("4".into())));
    assert!(t.respond(second, &CompletionResponse::Done));
    let texts: Vec<&str> = t.messages().iter().map(|m| m.text.as_str()).collect();
    assert_eq!(texts, vec!["hello", "Q1", "A", "Q2", "4"]);
    assert_eq!(t.requests().get(second).unwrap().state, CompletionRequestState::Done);
    assert_eq!(t.requests().get(first).unwrap().state, CompletionRequestState::Processing);
}

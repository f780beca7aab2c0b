use tic::chat::{ChatMessage, ChatTemplate, ChatTemplater, Sender};
use tic::completions::{run_completion, CompletionRequestState, CompletionResponse, CompletionState, Pulled, Work};
use tic::requests::RequestRegistry;

fn texts(events: &[CompletionResponse]) -> Vec<String> {
    events
        .iter()
        .map(|e| match e {
            CompletionResponse::Text(t) => format!("Text({})", t),
            CompletionResponse::Error(e) => format!("Error({})", e),
            CompletionResponse::Done => "Done".to_string(),
        })
        .collect()
}

/// Activates an engine once per unit, then once per `extra` activation with an
/// exhausted stream, collecting every event tagged with `id`.
fn drive(id: usize, mut state: CompletionState, units: Vec<Pulled>, extra: usize) -> (Vec<CompletionResponse>, CompletionState) {
    let mut events = Vec::new();
    let mut pulls = units;
    for _ in 0..extra {
        pulls.push(Pulled::Exhausted);
    }
    for p in pulls {
        let (ev, next) = run_completion(id, state, p);
        if let Some((i, e)) = ev {
            assert_eq!(i, id);
            events.push(e);
        }
        state = next;
    }
    (events, state)
}

#[test]
fn end_to_end_scenario() {
    let templater = ChatTemplater::new().unwrap();
    let conversation = vec![
        ChatMessage { text: "You are helpful".into(), sender: Sender::System },
        ChatMessage { text: "2+2?".into(), sender: Sender::User },
    ];
    let prompt = templater.apply(ChatTemplate::Llama3, conversation).unwrap();
    let mut registry = RequestRegistry::new();
    let id = registry.submit(&prompt);
    let state = CompletionState::new(&prompt, ChatTemplate::Llama3.stop_marker());
    match state.work() {
        Work::Start(p) => assert_eq!(p, prompt),
        _ => panic!("a new engine starts by loading its prompt"),
    }
    let (events, state) = drive(
        id,
        state,
        vec![Pulled::Unit("4".into()), Pulled::Unit("<|eot_id|>".into())],
        3,
    );
    assert_eq!(texts(&events), vec!["Text(4)".to_string(), "Done".to_string()]);
    assert!(state.is_terminal());
    for e in &events {
        assert!(registry.respond(id, e));
    }
    let req = registry.get(id).unwrap();
    assert_eq!(req.output, "4");
    assert_eq!(req.state, CompletionRequestState::Done);
}

#[test]
fn terminal_state_yields_nothing() {
    let mut state = CompletionState::Done;
    for _ in 0..5 {
        let (ev, next) = run_completion(7, state, Pulled::Unit("more".into()));
        assert!(ev.is_none());
        state = next;
    }
    assert!(matches!(state.work(), Work::Park));
}

#[test]
fn load_failure_reports_error_once() {
    let state = CompletionState::new("prompt", "<|end|>");
    let (events, state) = drive(1, state, vec![Pulled::Failed("context too long".into())], 2);
    assert_eq!(texts(&events), vec!["Error(context too long)".to_string()]);
    assert!(state.is_terminal());
}

#[test]
fn empty_stream_is_done_at_once() {
    let state = CompletionState::new("prompt", "<|end|>");
    let (events, _) = drive(2, state, vec![], 3);
    assert_eq!(texts(&events), vec!["Done".to_string()]);
}

#[test]
fn text_before_marker_in_one_unit_then_done() {
    let state = CompletionState::new("p", "<|eot_id|>");
    let (events, state) = drive(3, state, vec![Pulled::Unit("4<|eot_id|>junk".into())], 2);
    assert_eq!(texts(&events), vec!["Text(4)".to_string(), "Done".to_string()]);
    assert!(state.is_terminal());
}

#[test]
fn buffered_partial_yields_empty_text_then_flush() {
    let state = CompletionState::new("p", "<|eot_id|>");
    let (events, _) = drive(
        4,
        state,
        vec![Pulled::Unit("ok".into()), Pulled::Unit("<|eo".into())],
        3,
    );
    assert_eq!(
        texts(&events),
        vec!["Text(ok)".to_string(), "Text()".to_string(), "Text(<|eo)".to_string(), "Done".to_string()]
    );
}

#[test]
fn streaming_engine_asks_to_pull() {
    let state = CompletionState::new("p", "<|end|>");
    let (_, state) = run_completion(5, state, Pulled::Unit("a".into()));
    assert!(matches!(state.work(), Work::Pull));
}

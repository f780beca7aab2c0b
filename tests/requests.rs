use tic::completions::{CompletionRequestState, CompletionResponse};
use tic::requests::{CompletionRequest, RequestRegistry};

#[test]
fn ids_strictly_increase() {
    let mut registry = RequestRegistry::new();
    let mut ids = Vec::new();
    for i in 0..5 {
        ids.push(registry.submit(&format!("prompt {}", i)));
        if i == 2 {
            assert!(registry.respond(ids[1], &CompletionResponse::Done));
            assert!(registry.respond(ids[0], &CompletionResponse::Done));
        }
    }
    assert_eq!(ids, vec![0, 1, 2, 3, 4]);
    assert_eq!(registry.next_id(), 5);
}

#[test]
fn unknown_id_is_dropped() {
    let mut registry = RequestRegistry::new();
    assert!(!registry.respond(3, &CompletionResponse::Text("x".into())));
    assert!(registry.get(3).is_none());
}

#[test]
fn finished_request_takes_no_more_events() {
    let mut registry = RequestRegistry::new();
    let id = registry.submit("p");
    assert!(registry.respond(id, &CompletionResponse::Text("a".into())));
    assert!(registry.respond(id, &CompletionResponse::Error("boom".into())));
    assert!(registry.respond(id, &CompletionResponse::Text("b".into())));
    assert!(registry.respond(id, &CompletionResponse::Done));
    let req = registry.get(id).unwrap();
    assert_eq!(req.output, "aboom");
    assert_eq!(req.state, CompletionRequestState::Error);
    assert_eq!(req.input, "p");
    assert_eq!(req.id, id);
}

#[test]
fn new_request_is_processing() {
    let r = CompletionRequest::new(9, "hi");
    assert_eq!(r.id, 9);
    assert_eq!(r.state, CompletionRequestState::Processing);
    assert_eq!(r.output, "");
}

#[test]
fn processing_lists_unfinished_requests_in_order() {
    let mut registry = RequestRegistry::new();
    for i in 0..4 {
        registry.submit(&format!("p{}", i));
    }
    assert!(registry.respond(1, &CompletionResponse::Done));
    assert!(registry.respond(2, &CompletionResponse::Error("x".into())));
    assert_eq!(registry.processing(), vec![0, 3]);
    assert!(registry.respond(0, &CompletionResponse::Text("still going".into())));
    assert_eq!(registry.processing(), vec![0, 3]);
}

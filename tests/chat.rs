use tic::chat::{prompt_or_input, role_str, ChatMessage, ChatTemplate, ChatTemplater, RenderError, Sender};
use tic::message::{conversation_for, MessageContainer};

#[test]
fn test_chat_templater() {
    let templater = ChatTemplater::new().unwrap();
    let conversation = vec![
        ChatMessage {
            text: "Hello".into(),
            sender: Sender::User,
        },
        ChatMessage {
            text: "Hi".into(),
            sender: Sender::Assistant,
        },
    ];
    let rendered = templater.apply(ChatTemplate::Llama3, conversation).unwrap();

    assert_eq!(
        rendered,
        r#"<|begin_of_text|><|start_header_id|>user<|end_header_id|>

Hello<|eot_id|><|start_header_id|>assistant<|end_header_id|>

Hi<|eot_id|><|start_header_id|>assistant<|end_header_id|>

"#
    );
}

#[test]
fn phi3_golden_rendering() {
    let templater = ChatTemplater::new().unwrap();
    let conversation = vec![
        ChatMessage { text: "Hello".into(), sender: Sender::User },
        ChatMessage { text: "Hi".into(), sender: Sender::Assistant },
    ];
    let rendered = templater.apply(ChatTemplate::Phi3, conversation).unwrap();
    assert_eq!(rendered, "<s><|user|>\nHello<|end|>\n<|assistant|>\nHi<|end|>\n<|assistant|>\n");
}

#[test]
fn empty_conversation_renders_markers_only() {
    let templater = ChatTemplater::new().unwrap();
    let rendered = templater.apply(ChatTemplate::Llama3, Vec::new()).unwrap();
    assert_eq!(rendered, "<|begin_of_text|><|start_header_id|>assistant<|end_header_id|>\n\n");
}

#[test]
fn system_role_is_lowercase_in_output() {
    let templater = ChatTemplater::new().unwrap();
    let conversation = vec![ChatMessage { text: "Be brief".into(), sender: Sender::System }];
    let rendered = templater.apply(ChatTemplate::Phi3, conversation).unwrap();
    assert_eq!(rendered, "<s><|system|>\nBe brief<|end|>\n<|assistant|>\n");
}

#[test]
fn template_markers_per_family() {
    assert_eq!(ChatTemplate::Llama3.stop_marker(), "<|eot_id|>");
    assert_eq!(ChatTemplate::Phi3.stop_marker(), "<|end|>");
    assert_eq!(ChatTemplate::Llama3.leading_marker(), "<|begin_of_text|>");
    assert_eq!(ChatTemplate::Phi3.leading_marker(), "<s>");
    assert_eq!(ChatTemplate::Llama3.template_name(), "llama3");
    assert_eq!(role_str(Sender::Assistant), "assistant");
}

#[test]
fn render_failure_falls_back_to_input() {
    let failed: Result<String, RenderError> = Err(RenderError { message: "bad".into() });
    assert_eq!(prompt_or_input(failed, "raw turn"), "raw turn");
    assert_eq!(prompt_or_input(Ok("rendered".to_string()), "raw turn"), "rendered");
}

#[test]
fn conversation_keeps_included_history_in_order() {
    let history = vec![
        MessageContainer::new("greeting", Sender::Assistant, None, false),
        MessageContainer::new("first", Sender::User, None, true),
        MessageContainer::new("reply", Sender::Assistant, Some(0), true),
    ];
    let conv = conversation_for("sys", &history, "next");
    let got: Vec<(String, Sender)> = conv.iter().map(|m| (m.text.clone(), m.sender)).collect();
    assert_eq!(
        got,
        vec![
            ("sys".to_string(), Sender::System),
            ("first".to_string(), Sender::User),
            ("reply".to_string(), Sender::Assistant),
            ("next".to_string(), Sender::User),
        ]
    );
    let from_container = ChatMessage::from(&history[1]);
    assert_eq!(from_container.text, "first");
    assert_eq!(from_container.sender, Sender::User);
}

#[test]
fn equal_calls_give_equal_results() {
    let templater = ChatTemplater::new().unwrap();
    let make = || {
        vec![
            ChatMessage { text: "Hello".into(), sender: Sender::User },
            ChatMessage { text: "Hi".into(), sender: Sender::Assistant },
        ]
    };
    for t in [ChatTemplate::Llama3, ChatTemplate::Phi3] {
        let a = templater.apply(t, make()).unwrap();
        let b = templater.apply(t, make()).unwrap();
        assert_eq!(a, b);
    }
}

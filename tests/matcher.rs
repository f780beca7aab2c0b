use tic::matcher::{MatchOutcome, StopMatcher};

/// Feeds chunks until the marker is confirmed; returns the released text and
/// how many chunks were consumed, or None as the count when it never stopped.
fn drive(marker: &str, chunks: &[&str]) -> (String, Option<usize>) {
    let mut m = StopMatcher::new(marker);
    let mut out = String::new();
    for (i, c) in chunks.iter().enumerate() {
        match m.push(c) {
            MatchOutcome::Text(t) => out.push_str(&t),
            MatchOutcome::Stop(t) => {
                out.push_str(&t);
                return (out, Some(i + 1));
            }
        }
    }
    out.push_str(&m.finish());
    (out, None)
}

#[test]
fn marker_split_in_given_chunks_never_leaks() {
    let (out, stopped) = drive("<|eot_id|>", &["abc", "<|eo", "t_id|>", "trailing"]);
    assert_eq!(out, "abc");
    assert_eq!(stopped, Some(3));
}

#[test]
fn marker_never_leaks_at_any_split() {
    let stream: Vec<char> = "abc<|eot_id|>trailing".chars().collect();
    let n = stream.len();
    for a in 0..=n {
        for b in a..=n {
            let c1: String = stream[..a].iter().collect();
            let c2: String = stream[a..b].iter().collect();
            let c3: String = stream[b..].iter().collect();
            let (out, stopped) = drive("<|eot_id|>", &[&c1, &c2, &c3]);
            assert_eq!(out, "abc", "split at {} and {}", a, b);
            assert!(stopped.is_some(), "split at {} and {}", a, b);
        }
    }
}

#[test]
fn marker_in_single_chunk_stops() {
    let (out, stopped) = drive("<|eot_id|>", &["abc<|eot_id|>trailing"]);
    assert_eq!(out, "abc");
    assert_eq!(stopped, Some(1));
}

#[test]
fn false_alarm_loses_no_text() {
    let mut m = StopMatcher::new("<|eot_id|>");
    let first = m.push("ab<");
    assert!(matches!(&first, MatchOutcome::Text(t) if t == "ab"));
    assert_eq!(m.pending(), Some("<"));
    let second = m.push("xyz");
    assert!(matches!(&second, MatchOutcome::Text(t) if t == "<xyz"));
    assert_eq!(m.pending(), None);
    assert_eq!(m.finish(), "");
}

#[test]
fn unresolved_tail_is_flushed_at_end() {
    let (out, stopped) = drive("<|eot_id|>", &["hello <|e", "ot"]);
    assert_eq!(out, "hello <|eot");
    assert_eq!(stopped, None);
}

#[test]
fn partial_prefix_is_held_without_output() {
    let mut m = StopMatcher::new("<|end|>");
    assert!(matches!(m.push("<|"), MatchOutcome::Text(t) if t.is_empty()));
    assert!(matches!(m.push("en"), MatchOutcome::Text(t) if t.is_empty()));
    assert_eq!(m.pending(), Some("<|en"));
    assert!(matches!(m.push("d|>more"), MatchOutcome::Stop(t) if t.is_empty()));
    assert_eq!(m.marker(), "<|end|>");
}

#[test]
fn divergent_candidate_then_new_start() {
    let (out, stopped) = drive("<|eot_id|>", &["x<|e", "Q<|eot_id|>"]);
    assert_eq!(out, "x<|eQ");
    assert_eq!(stopped, Some(2));
}

#[test]
fn lone_lead_character_mid_chunk_is_released() {
    let (out, stopped) = drive("<|eot_id|>", &["a<b<c", "d"]);
    assert_eq!(out, "a<b<cd");
    assert_eq!(stopped, None);
}

#[test]
fn empty_chunks_change_nothing() {
    let (out, stopped) = drive("<|eot_id|>", &["", "hi", "", "<|eot_id|>"]);
    assert_eq!(out, "hi");
    assert_eq!(stopped, Some(4));
}

use inference_bridge::context::{
    plan_context_follow_up, summary_request_text, summary_token_estimate, ContextAction,
    StoredMessage,
};

fn msg(role: &str, content: Option<&str>) -> StoredMessage {
    StoredMessage { role: role.to_string(), content: content.map(|c| c.to_string()) }
}

fn conversation(n: usize) -> Vec<StoredMessage> {
    let mut v = vec![msg("system", Some("be brief"))];
    for i in 0..n {
        let role = if i % 2 == 0 { "user" } else { "assistant" };
        v.push(msg(role, Some(&format!("m{i}"))));
        v.push(msg("tool", Some("ignored")));
    }
    v
}

#[test]
fn a_roomy_window_needs_nothing() {
    let f = plan_context_follow_up(100, 4096, &conversation(3), None);
    assert_eq!(f.action, ContextAction::NoAction);
    assert_eq!(f.action_label, None);
    assert!(f.compressible.is_empty());
    assert_eq!((f.rolling_tokens, f.compressed_tokens), (100, 0));
}

#[test]
fn a_full_window_compresses_the_oldest_third() {
    let mut messages = conversation(9);
    messages[3].content = None;
    let f = plan_context_follow_up(850, 1000, &messages, Some(120));
    assert_eq!(f.action, ContextAction::Compress { message_count: 3 });
    assert_eq!(
        f.action_label,
        Some("Context nearing capacity; compressing 3 older messages.".to_string())
    );
    assert_eq!(
        f.compressible,
        vec![
            ("user".to_string(), "m0".to_string()),
            ("assistant".to_string(), "".to_string()),
            ("user".to_string(), "m2".to_string()),
        ]
    );
    assert_eq!((f.rolling_tokens, f.compressed_tokens), (730, 120));
}

#[test]
fn an_overfull_window_asks_for_a_rebuild() {
    let f = plan_context_follow_up(990, 1000, &conversation(9), Some(2000));
    assert_eq!(f.action, ContextAction::Rebuild);
    assert_eq!(
        f.action_label,
        Some("Context critically full; a rebuild is recommended.".to_string())
    );
    assert!(f.compressible.is_empty());
    assert_eq!(f.rolling_tokens, 0);
}

#[test]
fn summary_sizes_and_requests() {
    assert_eq!(summary_token_estimate(0), 1);
    assert_eq!(summary_token_estimate(3), 1);
    assert_eq!(summary_token_estimate(400), 100);
    let text = summary_request_text(&[
        ("user".to_string(), "hi".to_string()),
        ("assistant".to_string(), "hello".to_string()),
    ]);
    assert_eq!(text, "user: hi\n\nassistant: hello");
    assert_eq!(summary_request_text(&[]), "");
}

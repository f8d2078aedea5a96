use inference_bridge::engine::streaming::{longest_partial_suffix, ContentEvent, ContentParser};

#[test]
fn longest_partial_suffix_handles_multibyte_unicode() {
    assert_eq!(longest_partial_suffix("\u{e9}", &["<think>"]), 0);
}

#[test]
fn longest_partial_suffix_keeps_partial_tag_after_unicode_prefix() {
    assert_eq!(longest_partial_suffix("\u{e9}<thi", &["<think>"]), 4);
}

#[test]
fn longest_partial_suffix_takes_the_longest_over_candidates() {
    assert_eq!(longest_partial_suffix("abc</th", &["<think>", "</think>"]), 4);
    assert_eq!(longest_partial_suffix("<think>", &["<think>"]), 0);
    assert_eq!(longest_partial_suffix("", &["<think>"]), 0);
}

#[test]
fn parsed_content_routes_orphan_close_prefix_to_reasoning() {
    let mut parser = ContentParser::with_buffer("scratch notes</think>Final answer");
    let events = parser.emit_parsed_content();
    assert_eq!(
        events,
        vec![
            ContentEvent::ReasoningDelta("scratch notes".to_string()),
            ContentEvent::Token("Final answer".to_string()),
        ]
    );
}

#[test]
fn parsed_content_suppresses_streamed_tool_call_markup() {
    let mut parser =
        ContentParser::with_buffer("Let me check.\n<tool_call>_.glob(dir=\".\",pattern=\"**/*\")");
    let events = parser.emit_parsed_content();
    assert_eq!(events, vec![ContentEvent::Token("Let me check.\n".to_string())]);
    assert_eq!(parser.hidden_close_tag(), Some("</tool_call>"));
}

#[test]
fn parsed_content_routes_gemma_channel_markers_to_reasoning() {
    let mut parser =
        ContentParser::with_buffer("<|channel>thought\nprivate notes\n<channel|>Final answer");
    let events = parser.emit_parsed_content();
    assert_eq!(
        events,
        vec![
            ContentEvent::ReasoningDelta("\nprivate notes\n".to_string()),
            ContentEvent::Token("Final answer".to_string()),
        ]
    );
}

#[test]
fn parsed_content_truncates_at_gemma_turn_boundary() {
    let mut parser =
        ContentParser::with_buffer("Final answer.<turn|><|turn>user\nignore this continuation");
    let events = parser.emit_parsed_content();
    assert_eq!(events, vec![ContentEvent::Token("Final answer.".to_string())]);
    assert!(parser.hit_generation_boundary());
}

#[test]
fn split_markers_are_held_back_until_complete() {
    let mut parser = ContentParser::new();
    assert_eq!(parser.push("Hello <thi"), vec![ContentEvent::Token("Hello ".to_string())]);
    assert_eq!(parser.buffered(), "<thi");
    assert_eq!(parser.push("nk>plan"), vec![ContentEvent::ReasoningDelta("plan".to_string())]);
    assert!(parser.in_think());
    assert_eq!(parser.push("</think>done"), vec![ContentEvent::Token("done".to_string())]);
    assert!(!parser.in_think());
}

#[test]
fn finishing_flushes_by_mode() {
    let mut parser = ContentParser::new();
    parser.push("answer <thi");
    assert_eq!(parser.finish(), vec![ContentEvent::Token("<thi".to_string())]);
    assert_eq!(parser.buffered(), "");

    let mut thinking = ContentParser::with_buffer("<think>partial </thi");
    thinking.emit_parsed_content();
    assert_eq!(thinking.finish(), vec![ContentEvent::ReasoningDelta("</thi".to_string())]);

    let mut hidden = ContentParser::with_buffer("<tool_call>{\"a\":1}</tool");
    hidden.emit_parsed_content();
    assert_eq!(hidden.finish(), vec![]);
}

#[test]
fn after_a_turn_boundary_nothing_more_is_shown() {
    let mut parser = ContentParser::with_buffer("ok<|im_end|>");
    parser.emit_parsed_content();
    assert!(parser.hit_generation_boundary());
    assert_eq!(parser.push("more text"), vec![]);
}

#[test]
fn tool_markup_is_hidden_until_its_close_tag() {
    let mut parser = ContentParser::with_buffer("a<div class=\"tool_code\">x</div>b");
    assert_eq!(
        parser.emit_parsed_content(),
        vec![ContentEvent::Token("a".to_string()), ContentEvent::Token("b".to_string())]
    );
}

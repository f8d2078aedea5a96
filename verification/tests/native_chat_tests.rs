use inference_bridge::engine::native_chat::{
    native_chat_full_text, stopped_at_limit, NativeChatAccumulator, NativeChunk, NativeDelta, ToolCallPiece,
};

fn piece(index: Option<u64>, id: Option<&str>, name: Option<&str>, arguments: Option<&str>) -> ToolCallPiece {
    ToolCallPiece {
        index,
        id: id.map(|s| s.to_string()),
        name: name.map(|s| s.to_string()),
        arguments: arguments.map(|s| s.to_string()),
    }
}

fn render(acc: &NativeChatAccumulator) -> String {
    let rendered: Vec<String> = acc
        .tool_calls()
        .iter()
        .map(|call| {
            let arguments = serde_json::from_str::<serde_json::Value>(&call.arguments)
                .unwrap_or_else(|_| serde_json::Value::String(call.arguments.clone()));
            let mut object = serde_json::Map::new();
            object.insert("id".to_string(), call.id.clone().map(serde_json::Value::String).unwrap_or(serde_json::Value::Null));
            object.insert("name".to_string(), serde_json::Value::String(call.name.clone()));
            object.insert("arguments".to_string(), arguments);
            serde_json::Value::Object(object).to_string()
        })
        .collect();
    native_chat_full_text(&acc.reasoning(), &acc.content(), &rendered)
}

#[test]
fn native_chat_accumulates_two_tool_calls_without_empty_think_tags() {
    let mut acc = NativeChatAccumulator::new();
    acc.merge(&NativeChunk {
        has_usage: false,
        prompt_tokens: None,
        completion_tokens: None,
        has_choice: true,
        finish_reason: None,
        delta: Some(NativeDelta {
            content: None,
            reasoning: Some(String::new()),
            tool_calls: vec![
                piece(Some(0), Some("call_weather"), Some("weather"), Some("{\"city\":")),
                piece(Some(1), Some("call_time"), Some("clock"), Some("{\"zone\":")),
            ],
            tool_calls_json: Some("[...]".to_string()),
        }),
    });
    acc.merge(&NativeChunk {
        has_usage: true,
        prompt_tokens: Some(21),
        completion_tokens: Some(9),
        has_choice: true,
        finish_reason: Some("tool_calls".to_string()),
        delta: Some(NativeDelta {
            content: None,
            reasoning: None,
            tool_calls: vec![piece(Some(0), None, None, Some("\"London\"}")), piece(Some(1), None, None, Some("\"Europe/London\"}"))],
            tool_calls_json: None,
        }),
    });
    let text = render(&acc);
    assert!(!text.contains("<think>"));
    assert!(text.contains("\"name\":\"weather\""));
    assert!(text.contains("\"city\":\"London\""));
    assert!(text.contains("\"name\":\"clock\""));
    assert!(text.contains("\"zone\":\"Europe/London\""));
    assert_eq!(acc.finish_reason().as_deref(), Some("tool_calls"));
    assert_eq!(acc.prompt_tokens(), 21);
    assert_eq!(acc.completion_tokens(), 9);
}

#[test]
fn native_chat_reads_llama_timing_only_usage_chunk() {
    let mut acc = NativeChatAccumulator::new();
    let result = acc.merge(&NativeChunk {
        has_usage: true,
        prompt_tokens: Some(3014),
        completion_tokens: Some(162),
        has_choice: false,
        finish_reason: None,
        delta: None,
    });
    assert_eq!(result, (None, None, None));
    assert_eq!(acc.prompt_tokens(), 3014);
    assert_eq!(acc.completion_tokens(), 162);
}

#[test]
fn calls_are_kept_in_index_order_and_text_is_framed() {
    let mut acc = NativeChatAccumulator::new();
    let out = acc.merge(&NativeChunk {
        has_usage: true,
        prompt_tokens: Some(u64::MAX),
        completion_tokens: None,
        has_choice: true,
        finish_reason: None,
        delta: Some(NativeDelta {
            content: Some("Hi".to_string()),
            reasoning: Some("hmm".to_string()),
            tool_calls: vec![piece(Some(5), Some("b"), Some("second"), None), piece(None, Some("a"), Some("fir"), None)],
            tool_calls_json: Some("[{}]".to_string()),
        }),
    });
    assert_eq!(out, (Some("Hi".to_string()), Some("hmm".to_string()), Some("[{}]".to_string())));
    assert_eq!(acc.prompt_tokens(), 0);
    acc.merge(&NativeChunk {
        has_usage: false,
        prompt_tokens: None,
        completion_tokens: None,
        has_choice: true,
        finish_reason: Some("length".to_string()),
        delta: Some(NativeDelta { content: None, reasoning: None, tool_calls: vec![piece(Some(1), None, Some("st"), None)], tool_calls_json: None }),
    });
    let calls = acc.tool_calls();
    assert_eq!(calls.len(), 2);
    assert_eq!((calls[0].index, calls[0].name.as_str(), calls[0].id.as_deref()), (1, "first", Some("a")));
    assert_eq!((calls[1].index, calls[1].name.as_str()), (5, "second"));
    assert_eq!(
        native_chat_full_text("r", "c", &vec!["{1}".to_string(), "{2}".to_string()]),
        "<think>r</think>\nc<tool_call>{1}</tool_call><tool_call>{2}</tool_call>"
    );
    assert_eq!(native_chat_full_text("", "c", &vec![]), "c");
    assert!(stopped_at_limit(&acc.finish_reason()));
    assert!(!stopped_at_limit(&None));
}

use inference_bridge::chat_turn::benchmark_verdict;
use inference_bridge::chat::{
    apply_thinking_preference, build_openai_messages, ApiContentPart, ApiMessageContent, ModelFamily,
    PreparedMessage,
};
use inference_bridge::chat_turn::{
    chat_route, check_history_images, check_inline_image, generation_final_status, live_input,
    number_image_markers, vision_runtime_ready, ChatRoute, ImageData,
};

fn msg(role: &str, content: &str, image: Option<&str>) -> PreparedMessage {
    PreparedMessage { role: role.to_string(), content: content.to_string(), image_base64: image.map(|s| s.to_string()) }
}

#[test]
fn live_input_notes_attached_images() {
    assert_eq!(live_input("  ", true), "[image attached]");
    assert_eq!(live_input("look", true), "look\n[image attached]");
    assert_eq!(live_input("plain", false), "plain");
}

#[test]
fn images_need_vision_and_a_projector() {
    assert_eq!(check_inline_image("m.gguf", true, true), Ok(()));
    assert_eq!(
        check_inline_image("m.gguf", false, true),
        Err("The loaded model `m.gguf` does not advertise vision support. Load a Vision-capable model first.".to_string())
    );
    assert!(check_inline_image("m.gguf", true, false).unwrap_err().contains("without a matching mmproj sidecar"));
    let history = vec![msg("user", "a", None), msg("user", "b", Some("AAAA"))];
    assert_eq!(check_history_images("m", &vec![msg("user", "a", None)], false, false), Ok(()));
    assert_eq!(
        check_history_images("m", &history, false, true),
        Err("The loaded model `m` does not advertise vision support, but this conversation contains image input.".to_string())
    );
    assert!(check_history_images("m", &history, true, false).unwrap_err().starts_with("This conversation contains image input, but `m`"));
    assert_eq!(check_history_images("m", &history, true, true), Ok(()));
}

#[test]
fn vision_readiness_follows_the_last_launch() {
    assert!(vision_runtime_ready("gemma-4-12B-it-Q4_K_M.gguf", Some("/models/gemma-4-12B-it-Q4_K_M.gguf"), true));
    assert!(!vision_runtime_ready("gemma-4-12B-it-Q4_K_M.gguf", Some("/models/gemma-4-12B-it-Q4_K_M.gguf"), false));
    assert!(!vision_runtime_ready("gemma-4-12B-it-Q4_K_M.gguf", Some("/models/other.gguf"), true));
    assert!(!vision_runtime_ready("x", None, true));
}

#[test]
fn routes_by_image_and_family() {
    assert_eq!(chat_route(true, ModelFamily::Gemma4), ChatRoute::VisionCompletion);
    assert_eq!(chat_route(true, ModelFamily::Qwen3_5), ChatRoute::NativeChat);
    assert_eq!(chat_route(false, ModelFamily::Qwen3_5), ChatRoute::NativeChat);
    assert_eq!(chat_route(false, ModelFamily::Other), ChatRoute::Completion);
    assert_eq!(generation_final_status(true), "cancelled");
    assert_eq!(generation_final_status(false), "completed");
}

#[test]
fn images_are_numbered_in_order() {
    let messages = vec![
        msg("user", "first", Some("AAA")),
        msg("assistant", "ok", None),
        msg("user", "  ", Some("BBB")),
    ];
    let (out, images) = number_image_markers(&messages);
    assert_eq!(out[0].content, "[img-1]\nfirst");
    assert_eq!(out[1].content, "ok");
    assert_eq!(out[2].content, "[img-2]");
    assert_eq!(out[2].role, "user");
    assert_eq!(
        images,
        vec![ImageData { data: "AAA".to_string(), id: 1 }, ImageData { data: "BBB".to_string(), id: 2 }]
    );
}

#[test]
fn benchmark_verdicts() {
    assert_eq!(benchmark_verdict(true, None, "text"), Err("Benchmark cancelled".to_string()));
    assert_eq!(benchmark_verdict(false, Some("boom".to_string()), "  "), Err("boom".to_string()));
    assert_eq!(benchmark_verdict(false, Some("boom".to_string()), "some text"), Ok(()));
    assert_eq!(benchmark_verdict(false, None, ""), Ok(()));
}

#[test]
fn gemma_thinking_guidance_does_not_shift_pasted_image_to_assistant() {
    let history = vec![
        msg("user", "hello", None),
        msg("assistant", "Hello!", None),
        msg("user", "how are you today?", None),
        msg("assistant", "I'm doing great.", None),
        msg("user", "what is in this image?", Some("QUFBQQ==")),
    ];
    let prepared = apply_thinking_preference(history.clone(), ModelFamily::Gemma4, false, Some(false));
    let openai_messages = build_openai_messages(&prepared);

    assert_eq!(openai_messages.len(), history.len() + 1);
    let roles = openai_messages.iter().map(|m| m.role.as_str()).collect::<Vec<_>>();
    assert_eq!(roles, vec!["system", "user", "assistant", "user", "assistant", "user"]);
    assert_eq!(openai_messages[1].content, ApiMessageContent::Text("hello".to_string()));
    assert_eq!(openai_messages[2].content, ApiMessageContent::Text("Hello!".to_string()));
    assert_eq!(openai_messages[3].content, ApiMessageContent::Text("how are you today?".to_string()));
    assert_eq!(openai_messages[4].content, ApiMessageContent::Text("I'm doing great.".to_string()));

    let image_owners = openai_messages
        .iter()
        .filter(|m| match &m.content {
            ApiMessageContent::Parts(parts) => parts.iter().any(|p| matches!(p, ApiContentPart::ImageUrl { .. })),
            ApiMessageContent::Text(_) => false,
        })
        .collect::<Vec<_>>();
    assert_eq!(image_owners.len(), 1);
    assert_eq!(image_owners[0].role, "user");

    match &openai_messages.last().unwrap().content {
        ApiMessageContent::Parts(final_parts) => {
            assert_eq!(final_parts[0], ApiContentPart::Text { text: "what is in this image?".to_string() });
            assert_eq!(
                final_parts[1],
                ApiContentPart::ImageUrl { url: "data:image/png;base64,QUFBQQ==".to_string() }
            );
        },
        ApiMessageContent::Text(_) => panic!("final user message should contain multimodal parts"),
    }
    assert!(openai_messages
        .iter()
        .filter(|m| m.role == "assistant")
        .all(|m| matches!(m.content, ApiMessageContent::Text(_))));
}

use inference_bridge::chat::{
    apply_thinking_preference, launch_preview_matches_model, preview_name_matches,
    strip_legacy_image_markers, useful_error_log, ModelFamily, PreparedMessage,
};
use inference_bridge::runtime::{
    classify_port_owner, detect_backend_from_path, done_model_load_state,
    gpu_stats_from_nvidia_smi, load_transition_for_request, model_load_state_label, names_match,
    process_name_from_tasklist, resolve_effective_profile_model, resolve_launch_context_size,
    sanitize_hf_cache_segment, ModelLoadState, RuntimeLoadRequest,
};

#[test]
fn passes_through_requested_context() {
    assert_eq!(resolve_launch_context_size(Some(32768)), Some(32768));
}

#[test]
fn none_when_nothing_requested() {
    assert_eq!(resolve_launch_context_size(None), None);
}

#[test]
fn ignores_zero() {
    assert_eq!(resolve_launch_context_size(Some(0)), None);
}

#[test]
fn load_requests_split_into_context_and_overrides() {
    let request = RuntimeLoadRequest {
        context_size: Some(0),
        hf_repo: Some("owner/repo".to_string()),
        ctxcp: Some(4),
        ..RuntimeLoadRequest::default()
    };
    assert_eq!(request.normalized_context_size(), None);
    let overrides = request.into_overrides();
    assert_eq!(overrides.hf_repo.as_deref(), Some("owner/repo"));
    assert_eq!(overrides.ctxcp, Some(4));
}

#[test]
fn model_names_match_across_case_and_extension() {
    assert!(names_match("Model.GGUF", "model"));
    assert!(names_match("model", "MODEL.gguf"));
    assert!(!names_match("model-a", "model-b"));
}

#[test]
fn load_transitions() {
    assert_eq!(load_transition_for_request(None, "a"), ModelLoadState::Loading);
    assert_eq!(load_transition_for_request(Some("a.gguf"), "A"), ModelLoadState::Loading);
    assert_eq!(load_transition_for_request(Some("a"), "b"), ModelLoadState::Swapping);
    assert_eq!(done_model_load_state(&ModelLoadState::Unloading, None), ModelLoadState::Idle);
    assert_eq!(done_model_load_state(&ModelLoadState::Swapping, None), ModelLoadState::Loaded);
    assert_eq!(
        done_model_load_state(&ModelLoadState::Loading, Some("boom")),
        ModelLoadState::Error("boom".to_string())
    );
    assert_eq!(model_load_state_label(&ModelLoadState::Error("x".to_string())), "Error");
}

#[test]
fn cache_segments_are_safe() {
    assert_eq!(sanitize_hf_cache_segment("owner/model:v1.0"), "owner_model_v1.0");
}

#[test]
fn effective_profile_model_prefers_request_then_loaded_then_first() {
    assert_eq!(resolve_effective_profile_model(Some(" m "), Some("l"), None).unwrap(), "m");
    assert_eq!(resolve_effective_profile_model(Some("  "), Some("l"), Some("f")).unwrap(), "l");
    assert_eq!(resolve_effective_profile_model(None, None, Some("f")).unwrap(), "f");
    assert!(resolve_effective_profile_model(None, None, None).is_err());
}

#[test]
fn nvidia_smi_lines_become_gpu_stats() {
    let stats = gpu_stats_from_nvidia_smi("NVIDIA RTX 3090, 1024, 24576, 23552\r\nignored\n", 65536).unwrap();
    assert_eq!(stats.name, "NVIDIA RTX 3090");
    assert_eq!((stats.used_mb, stats.dedicated_mb, stats.free_mb), (1024, 24576, 23552));
    assert_eq!(stats.system_ram_mb, 65536);
    assert_eq!(gpu_stats_from_nvidia_smi("", 0).unwrap_err(), "No output from nvidia-smi");
    assert_eq!(
        gpu_stats_from_nvidia_smi("a, b\n", 0).unwrap_err(),
        "Unexpected nvidia-smi output: a, b"
    );
    let odd = gpu_stats_from_nvidia_smi("gpu, x, 2, 3, 4\n", 0).unwrap();
    assert_eq!((odd.used_mb, odd.dedicated_mb, odd.free_mb), (0, 2, 0));
}

#[test]
fn port_owners_and_process_names() {
    let me = classify_port_owner(7, 7, Some("whatever.exe".to_string())).unwrap();
    assert_eq!((me.kind.as_str(), me.killable), ("self", false));
    let llama = classify_port_owner(8, 7, Some("Llama-Server.exe".to_string())).unwrap();
    assert_eq!((llama.kind.as_str(), llama.killable), ("llama-server", true));
    assert!(classify_port_owner(8, 7, None).is_none());
    assert_eq!(classify_port_owner(8, 7, Some("x".to_string())).unwrap().kind, "other");
    assert_eq!(
        process_name_from_tasklist("\"llama-server.exe\",1234,\"Console\",1,\"10,000 K\"\r\n").as_deref(),
        Some("llama-server.exe")
    );
    assert_eq!(process_name_from_tasklist("INFO: No tasks are running.\r\n"), None);
}

#[test]
fn backend_labels() {
    assert_eq!(detect_backend_from_path(None, true, true), "Unknown");
    assert_eq!(detect_backend_from_path(Some("/x/llama-server"), true, false), "CUDA");
    assert_eq!(detect_backend_from_path(Some("/x/llama-server"), false, true), "Vulkan");
    assert_eq!(detect_backend_from_path(Some("/opt/Vulkan/llama-server"), false, false), "Vulkan");
    assert_eq!(detect_backend_from_path(Some("/opt/llama-server"), false, false), "GPU");
}

#[test]
fn strips_legacy_image_markers_for_openai_image_parts() {
    assert_eq!(
        strip_legacy_image_markers("[img-1]\nwhat is this?"),
        "what is this?"
    );
}

#[test]
fn image_markers_only_as_whole_lines() {
    assert_eq!(strip_legacy_image_markers("a [img-1] b\n  [img-2]  \nc\n"), "a [img-1] b\nc");
}

fn msg(role: &str, content: &str) -> PreparedMessage {
    PreparedMessage { role: role.to_string(), content: content.to_string(), image_base64: None }
}

#[test]
fn thinking_preferences_per_family() {
    let out = apply_thinking_preference(vec![msg("user", "hi")], ModelFamily::Gemma4, false, Some(true));
    assert_eq!(out[0].role, "system");
    assert!(out[0].content.starts_with("<|think|>\n"));
    let out = apply_thinking_preference(
        vec![msg("system", "be nice"), msg("user", "hi")],
        ModelFamily::Gemma4,
        false,
        Some(true),
    );
    assert_eq!(out[0].content, "<|think|>\nbe nice");
    let out = apply_thinking_preference(vec![msg("user", "hi")], ModelFamily::Gemma4, false, Some(false));
    assert_eq!(out.len(), 2);
    let out = apply_thinking_preference(vec![msg("user", "hi")], ModelFamily::Qwen3, true, Some(false));
    assert!(out[0].content.starts_with("Respond directly without emitting <think> blocks."));
    let out = apply_thinking_preference(vec![msg("user", "hi")], ModelFamily::Qwen3_5, true, Some(false));
    assert_eq!(out[0].content, "hi");
    let out = apply_thinking_preference(vec![msg("user", "hi")], ModelFamily::Other, true, Some(true));
    assert_eq!(out[0].content, "/think\nhi");
    let out = apply_thinking_preference(vec![msg("assistant", "hi")], ModelFamily::Other, true, Some(true));
    assert_eq!(out[0].content, "hi");
}

#[test]
fn launch_previews_match_by_file_name() {
    assert!(preview_name_matches(" Qwen.gguf ", "qwen"));
    assert!(preview_name_matches("q4", "model-q4.gguf"));
    assert!(!preview_name_matches("", "model.gguf"));
    assert!(launch_preview_matches_model("model", "/models/Model.gguf"));
}

#[test]
fn useful_error_lines() {
    assert_eq!(useful_error_log("line one\nlast error  \n\n", "out"), "last error");
    assert_eq!(useful_error_log("   ", "from stdout\n"), "from stdout");
    assert_eq!(useful_error_log("", ""), "");
    assert_eq!(useful_error_log(&"e".repeat(1500), "").len(), 1000);
}

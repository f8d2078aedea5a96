use inference_bridge::engine::process::ProcessState;
use inference_bridge::runtime::ModelLoadState;
use inference_bridge::status::{
    api_status, effective_load_state, effective_loaded_model, resolve_server_path, slot_count, transition_active,
};

#[test]
fn server_path_preference() {
    assert_eq!(resolve_server_path(Some(" /a/llama-server "), "/b", None), Some("/a/llama-server".to_string()));
    assert_eq!(resolve_server_path(Some("  "), " /b ", None), Some("/b".to_string()));
    assert_eq!(resolve_server_path(None, "", Some("/m/llama-server.exe".to_string())), Some("/m/llama-server.exe".to_string()));
    assert_eq!(resolve_server_path(None, "", None), None);
}

#[test]
fn loaded_model_and_state() {
    assert_eq!(effective_loaded_model(Some("a".to_string()), false, Some("b".to_string())), Some("a".to_string()));
    assert_eq!(effective_loaded_model(None, true, Some("b".to_string())), Some("b".to_string()));
    assert_eq!(effective_loaded_model(None, false, Some("b".to_string())), None);
    assert_eq!(effective_load_state(ProcessState::Running, true, ModelLoadState::Loading), ModelLoadState::Loaded);
    assert_eq!(effective_load_state(ProcessState::Starting, true, ModelLoadState::Loading), ModelLoadState::Loading);
    assert!(transition_active(ProcessState::Running, &ModelLoadState::Swapping, None));
    assert!(transition_active(ProcessState::Idle, &ModelLoadState::Idle, Some(false)));
    assert!(!transition_active(ProcessState::Running, &ModelLoadState::Loaded, Some(true)));
    assert_eq!(slot_count(true, Some(4)), Some(4));
    assert_eq!(slot_count(true, Some(0)), None);
    assert_eq!(slot_count(false, Some(4)), None);
}

#[test]
fn api_status_explains_an_unreachable_api() {
    assert_eq!(api_status(true, false, None, "Error", Some("x".to_string()), "http://127.0.0.1:8800", 8800), ("Running".to_string(), None));
    assert_eq!(api_status(false, true, None, "Running", None, "u", 1), ("Starting".to_string(), None));
    assert_eq!(api_status(false, false, Some("self"), "Running", None, "u", 1), ("Starting".to_string(), None));
    assert_eq!(
        api_status(false, false, None, "Running", None, "http://127.0.0.1:8800", 8800),
        (
            "Error".to_string(),
            Some("The public API is not currently reachable on http://127.0.0.1:8800. No active listener is holding port 8800. Retry API to start it again.".to_string())
        )
    );
    assert_eq!(
        api_status(false, false, Some("other"), "Running", None, "http://h:1", 1),
        (
            "Error".to_string(),
            Some("The public API is not currently reachable on http://h:1. Another process appears to be holding port 1.".to_string())
        )
    );
    assert_eq!(
        api_status(false, false, Some("other"), "Running", Some("bind failed".to_string()), "u", 1),
        ("Error".to_string(), Some("bind failed".to_string()))
    );
    assert_eq!(api_status(false, false, None, "Stopped", Some("e".to_string()), "u", 1), ("Stopped".to_string(), Some("e".to_string())));
}

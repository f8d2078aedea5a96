use inference_bridge::engine::process::{choose_binary, is_llama_package_dir, matches_backend_preference, BinaryCandidate};
use inference_bridge::context::{can_poll_context, compress_messages, decide_action, ContextAction};
use inference_bridge::engine::process::{
    detect_llama_flag_support, llama_flag_detection_targets, llama_flags_from_help_text,
    reasoning_mode_disables_thinking, unsupported_detected_launch_flags, ProcessState,
};

#[test]
fn detects_missing_llama_flags_from_help_text() {
    let help = r#"
            --jinja
            --reasoning MODE
            --chat-template-kwargs JSON
            --cache-type-k TYPE
        "#;
    let (supported, missing) =
        llama_flags_from_help_text(help, &["--jinja", "--reasoning", "--kv-unified"]);

    assert_eq!(supported, vec!["--jinja", "--reasoning"]);
    assert_eq!(missing, vec!["--kv-unified"]);
}

#[test]
fn flag_support_without_a_binary_lists_every_target_as_missing() {
    let support = detect_llama_flag_support(None, None, None);
    assert!(!support.checked);
    assert_eq!(support.missing_critical_flags.len(), llama_flag_detection_targets().len());
    assert_eq!(support.error.as_deref(), Some("llama-server binary not found"));
}

#[test]
fn flag_support_from_help_and_from_failures() {
    let checked = detect_llama_flag_support(Some("/bin/llama-server"), Some("--jinja --slots"), None);
    assert!(checked.checked);
    assert!(checked.supported_flags.contains(&"--jinja".to_string()));
    assert!(checked.missing_critical_flags.contains(&"--kv-unified".to_string()));
    let failed = detect_llama_flag_support(Some("/bin/llama-server"), None, Some("boom"));
    assert!(!failed.checked);
    assert_eq!(failed.error.as_deref(), Some("Unable to inspect llama-server flags: boom"));
    let quiet = detect_llama_flag_support(Some("/bin/llama-server"), None, None);
    assert_eq!(quiet.error.as_deref(), Some("Unable to inspect llama-server flags"));
}

#[test]
fn unsupported_launch_flags_are_sorted_and_unique() {
    let support = detect_llama_flag_support(Some("x"), Some("--jinja"), None);
    let args: Vec<String> = ["--slots", "--jinja", "--kv-unified", "--slots", "7"]
        .iter()
        .map(|s| s.to_string())
        .collect();
    assert_eq!(
        unsupported_detected_launch_flags(&args, &support),
        vec!["--kv-unified".to_string(), "--slots".to_string()]
    );
    let unchecked = detect_llama_flag_support(None, None, None);
    assert!(unsupported_detected_launch_flags(&args, &unchecked).is_empty());
}

#[test]
fn reasoning_off_words() {
    assert!(reasoning_mode_disables_thinking(Some(" OFF ")));
    assert!(reasoning_mode_disables_thinking(Some("0")));
    assert!(!reasoning_mode_disables_thinking(Some("on")));
    assert!(!reasoning_mode_disables_thinking(None));
}

#[test]
fn context_polling_requires_a_loaded_running_backend() {
    assert!(can_poll_context(true, ProcessState::Running));
    assert!(!can_poll_context(false, ProcessState::Running));
    assert!(!can_poll_context(true, ProcessState::Idle));
    assert!(!can_poll_context(true, ProcessState::Starting));
    assert!(!can_poll_context(true, ProcessState::Stopping));
    assert!(!can_poll_context(true, ProcessState::Error));
}

#[test]
fn context_actions_by_fill_level() {
    assert_eq!(decide_action(10, 0, 10), ContextAction::NoAction);
    assert_eq!(decide_action(95, 100, 0), ContextAction::Rebuild);
    assert_eq!(decide_action(80, 100, 9), ContextAction::Compress { message_count: 3 });
    assert_eq!(decide_action(80, 100, 5), ContextAction::Compress { message_count: 2 });
    assert_eq!(decide_action(80, 100, 4), ContextAction::NoAction);
    assert_eq!(decide_action(79, 100, 50), ContextAction::NoAction);
}

#[test]
fn a_fuller_window_never_gets_a_milder_action() {
    for used in 0..=120u32 {
        let a = decide_action(used, 100, 9);
        let b = decide_action(used + 1, 100, 9);
        if a == ContextAction::Rebuild {
            assert_eq!(b, ContextAction::Rebuild);
        }
        if matches!(a, ContextAction::Compress { .. }) {
            assert_ne!(b, ContextAction::NoAction);
        }
    }
}

#[test]
fn compressed_messages_are_trimmed_and_cut_at_200_bytes() {
    assert_eq!(compress_messages(&[]), "");
    let long = "x".repeat(250);
    let summary = compress_messages(&[
        ("user".to_string(), "  hi  ".to_string()),
        ("assistant".to_string(), long.clone()),
    ]);
    assert_eq!(
        summary,
        format!("[Earlier conversation summary]\nuser: hi\nassistant: {}...\n", &long[..200])
    );
}

#[test]
fn binary_choice_follows_the_backend_preference() {
    let cuda = BinaryCandidate { path: "C:/llama/CUDA/llama-server.exe".to_string(), has_cuda_libs: false };
    let cpu = BinaryCandidate { path: "C:/llama/cpu/llama-server.exe".to_string(), has_cuda_libs: false };
    let libs = BinaryCandidate { path: "C:/llama/x/llama-server.exe".to_string(), has_cuda_libs: true };
    assert!(matches_backend_preference(&cuda, "cuda"));
    assert!(matches_backend_preference(&libs, "cuda"));
    assert!(!matches_backend_preference(&cpu, "cuda"));
    assert!(matches_backend_preference(&cpu, "avx2"));
    assert!(matches_backend_preference(&cuda, "auto"));
    assert_eq!(
        choose_binary(Some("/explicit".to_string()), Some(cuda.clone()), &vec![], "cpu"),
        Some("/explicit".to_string())
    );
    assert_eq!(choose_binary(None, Some(cuda.clone()), &vec![cpu.clone()], "cpu"), Some(cpu.path.clone()));
    assert_eq!(choose_binary(None, Some(cuda.clone()), &vec![cpu.clone()], "cuda"), Some(cuda.path.clone()));
    assert_eq!(choose_binary(None, None, &vec![cpu.clone(), libs.clone()], "cuda"), Some(libs.path.clone()));
    assert_eq!(choose_binary(None, None, &vec![cpu], "cuda"), None);
    assert!(is_llama_package_dir("ggml.llamacpp_Microsoft.Winget.Source_8wekyb3d8bbwe"));
    assert!(!is_llama_package_dir("Python.Python.3.12"));
}

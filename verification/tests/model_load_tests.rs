use inference_bridge::config::ProcessConfig;
use inference_bridge::engine::launch::LaunchPreview;
use inference_bridge::model_load::{
    apply_load_overrides, crash_message, health_step, health_timeout_message, plan_template_selection,
    preview_matches_effective_launch, repo_template_selection, should_check_exit, EffectiveLaunch,
    HealthStep, HfModelMetadata, TemplatePlan, TemplateSelection,
};
use inference_bridge::runtime::RuntimeLoadOverrides;

fn no_overrides() -> RuntimeLoadOverrides {
    RuntimeLoadOverrides {
        hf_repo: None,
        hf_file: None,
        fit_mode: None,
        cache_ram_mb: None,
        ctxcp: None,
        use_jinja: None,
        reasoning_mode: None,
        template_mode: None,
        template_name: None,
        custom_template_path: None,
        chat_template_kwargs_json: None,
        extra_args: None,
    }
}

fn preview() -> LaunchPreview {
    LaunchPreview {
        runtime: "llama-server".to_string(),
        server_path: "/bin/llama-server".to_string(),
        model_path: "/models/Qwen3-8B-Q4_K_M.gguf".to_string(),
        hf_repo: None,
        hf_file: None,
        mmproj_path: None,
        backend_preference: "auto".to_string(),
        context_size: Some(8192),
        port: 8800,
        parallel_slots: 1,
        fit_mode: None,
        cache_ram_mb: None,
        ctxcp: None,
        use_jinja: true,
        reasoning_mode: None,
        reasoning_preserve: false,
        template_mode: "builtin".to_string(),
        template_source: Some("gguf:embedded-jinja".to_string()),
        template_path: None,
        template_name: None,
        chat_template_kwargs_json: None,
        draft_model_path: String::new(),
        spec_type: String::new(),
        spec_draft_n_max: 0,
        draft_max_tokens: 0,
        draft_min_tokens: 0,
        draft_p_min: "0.0000".to_string(),
        args: vec!["--model".to_string(), "/models/Qwen3-8B-Q4_K_M.gguf".to_string(), "--verbose".to_string()],
    }
}

fn request() -> EffectiveLaunch {
    EffectiveLaunch {
        model_filename: "qwen3-8b-q4_k_m".to_string(),
        context_size: Some(8192),
        template_mode: "builtin".to_string(),
        template_source: Some("gguf:embedded-jinja".to_string()),
        template_name: None,
        template_path: None,
        chat_template_kwargs_json: None,
        fit_mode: None,
        cache_ram_mb: None,
        ctxcp: None,
        use_jinja: true,
        reasoning_mode: None,
        extra_args: vec!["--verbose".to_string()],
    }
}

#[test]
fn overrides_replace_only_what_they_give() {
    let mut config = ProcessConfig::default();
    let mut o = no_overrides();
    o.use_jinja = Some(true);
    o.template_name = Some("chatml".to_string());
    o.extra_args = Some(vec!["-v".to_string()]);
    apply_load_overrides(&mut config, &o);
    assert!(config.use_jinja);
    assert_eq!(config.template_name.as_deref(), Some("chatml"));
    assert_eq!(config.extra_args, vec!["-v".to_string()]);
    assert_eq!(config.template_mode, "repo");
    assert_eq!(config.cache_ram_mb, None);
}

#[test]
fn template_plans() {
    let mut config = ProcessConfig::default();
    config.custom_template_path = Some("  /t/custom.jinja ".to_string());
    assert_eq!(
        plan_template_selection(&config, None, true),
        TemplatePlan::Ready(TemplateSelection {
            mode: "custom".to_string(),
            source: Some("custom:/t/custom.jinja".to_string()),
            file: Some("/t/custom.jinja".to_string()),
            name: None,
            use_jinja: false,
        })
    );
    let meta = HfModelMetadata {
        repo_id: Some("org/model".to_string()),
        file: None,
        template_path: None,
        has_repo_template: true,
        supports_vision: None,
    };
    assert_eq!(
        plan_template_selection(&config, Some(&meta), false),
        TemplatePlan::FetchRepo { repo_id: "org/model".to_string(), template_path: "chat_template.jinja".to_string() }
    );
    config.template_mode = " BuiltIn ".to_string();
    config.template_name = Some(" chatml ".to_string());
    assert_eq!(
        plan_template_selection(&config, Some(&meta), false),
        TemplatePlan::Ready(TemplateSelection {
            mode: "builtin".to_string(),
            source: Some("builtin:chatml".to_string()),
            file: None,
            name: Some("chatml".to_string()),
            use_jinja: false,
        })
    );
    config.template_name = None;
    config.use_jinja = true;
    match plan_template_selection(&config, None, false) {
        TemplatePlan::Ready(s) => assert_eq!(s.source.as_deref(), Some("gguf:embedded-jinja")),
        other => panic!("unexpected {other:?}"),
    }
    let repo = repo_template_selection("org/model", "chat_template.jinja", "/cache/t.jinja".to_string());
    assert_eq!(repo.source.as_deref(), Some("hf:org/model/chat_template.jinja"));
    assert!(repo.use_jinja);
}

#[test]
fn running_server_is_reused_only_for_the_same_launch() {
    assert!(preview_matches_effective_launch(&preview(), &request(), '/'));
    let mut other_ctx = request();
    other_ctx.context_size = None;
    assert!(!preview_matches_effective_launch(&preview(), &other_ctx, '/'));
    let mut more_args = request();
    more_args.extra_args = vec!["--a".to_string(), "--b".to_string(), "--c".to_string(), "--d".to_string()];
    assert!(!preview_matches_effective_launch(&preview(), &more_args, '/'));
    let mut other_model = request();
    other_model.model_filename = "llama-3.gguf".to_string();
    assert!(!preview_matches_effective_launch(&preview(), &other_model, '/'));
}

#[test]
fn health_polls() {
    assert_eq!(health_step(Some((200, "200 OK".to_string(), "{\"status\":\"ok\"}".to_string())), 3), HealthStep::Ready);
    assert_eq!(
        health_step(Some((200, "200 OK".to_string(), "{\"status\":\"loading model\"}".to_string())), 5),
        HealthStep::Waiting {
            stage: "loading".to_string(),
            message: "Loading model into GPU memory... (5s)".to_string(),
            progress_permille: 150,
        }
    );
    assert_eq!(
        health_step(Some((503, "503 Service Unavailable".to_string(), String::new())), 100),
        HealthStep::Waiting {
            stage: "loading".to_string(),
            message: "Loading model weights... (100s)".to_string(),
            progress_permille: 900,
        }
    );
    assert_eq!(
        health_step(Some((404, "404 Not Found".to_string(), String::new())), 1),
        HealthStep::Waiting {
            stage: "starting".to_string(),
            message: "Waiting for llama-server (HTTP 404 Not Found)... (1s)".to_string(),
            progress_permille: 80,
        }
    );
    assert_eq!(
        health_step(None, 2),
        HealthStep::Waiting {
            stage: "starting".to_string(),
            message: "Waiting for llama-server to respond... (2s)".to_string(),
            progress_permille: 30,
        }
    );
    assert!(should_check_exit(0) && should_check_exit(26) && !should_check_exit(5));
}

#[test]
fn load_failure_messages() {
    assert_eq!(crash_message(&vec![]), "llama-server crashed on startup.\nNo stderr output captured.");
    let lines: Vec<String> = (1..=12).map(|i| format!("l{i}")).collect();
    assert_eq!(crash_message(&lines), "llama-server crashed on startup.\nl3\nl4\nl5\nl6\nl7\nl8\nl9\nl10\nl11\nl12");
    assert_eq!(health_timeout_message(300), "llama-server did not become healthy within 300s");
}

use inference_bridge::chat::ModelFamily;
use inference_bridge::engine::kwargs::{normalize_chat_template_kwargs_for_profile, switch_thinking_off};
use inference_bridge::engine::launch::{
    build_args_preview, build_diffusion_args, build_server_args, validate_launch_config, DecimalSetting,
    LaunchConfig,
};
use inference_bridge::engine::mmproj::{
    find_mmproj_for_model, is_mmproj_candidate, model_family_token, shared_token_score,
};

fn decimal(text: &str) -> DecimalSetting {
    DecimalSetting { negative: text.starts_with('-'), positive: !text.starts_with('-') && text.chars().any(|c| c.is_ascii_digit() && c != '0'), text: text.to_string() }
}

fn test_launch_config(model_path: &str) -> LaunchConfig {
    LaunchConfig {
        model_path: model_path.to_string(),
        hf_repo: None,
        hf_file: None,
        context_size: None,
        gpu_layers: -1,
        threads: 0,
        threads_batch: 0,
        port: 8800,
        backend_preference: "auto".to_string(),
        batch_size: 0,
        ubatch_size: 0,
        flash_attn: true,
        use_mmap: true,
        use_mlock: false,
        cont_batching: true,
        parallel_slots: 1,
        main_gpu: 0,
        defrag_thold: decimal("0.1000"),
        rope_freq_scale: decimal("0.000000"),
        fit_mode: None,
        cache_ram_mb: None,
        ctxcp: None,
        use_jinja: false,
        reasoning_mode: None,
        reasoning_preserve: false,
        template_mode: "repo".to_string(),
        template_source: None,
        template_file: None,
        template_name: None,
        chat_template_kwargs_json: None,
        extra_args: vec![],
        cache_type_k: "q8_0".to_string(),
        cache_type_v: "q8_0".to_string(),
        kv_unified: true,
        no_warmup: false,
        ctx_shift: false,
        tensor_split: vec![],
        draft_model_path: String::new(),
        spec_type: String::new(),
        spec_draft_n_max: 0,
        draft_max_tokens: 0,
        draft_min_tokens: 0,
        draft_p_min: decimal("0.0000"),
        diffusion_n_predict: 2048,
        diffusion_kv_cache: "auto".to_string(),
        diffusion_visual: true,
        diffusion_extra_args: vec![],
        attach_mmproj: true,
    }
}

fn has_pair(args: &[String], a: &str, b: &str) -> bool {
    args.windows(2).any(|pair| pair[0] == a && pair[1] == b)
}

#[test]
fn validates_missing_draft_model_before_launch() {
    let mut config = test_launch_config("/models/gemma-4-26B-A4B-it-QAT-Q4_0.gguf");
    config.draft_model_path = "/models/missing-draft.gguf".to_string();
    config.spec_type = "draft-mtp".to_string();

    let error = validate_launch_config(&config, true, false, false)
        .expect_err("missing draft model should fail validation");

    assert!(error.contains("Draft model file does not exist"));
    assert!(error.contains("missing-draft.gguf"));
}

#[test]
fn dflash_requires_draft_model_path() {
    let mut config = test_launch_config("/models/Qwen3.6-27B-Q4_K_M.gguf");
    config.spec_type = "draft-dflash".to_string();

    let error = validate_launch_config(&config, true, false, false)
        .expect_err("DFlash without a draft model should fail");

    assert!(error.contains("DFlash speculative decoding requires a draft model path"));
}

#[test]
fn launch_checks_in_order() {
    let config = test_launch_config("/models/a.gguf");
    assert_eq!(
        validate_launch_config(&config, false, false, false),
        Err("Model file does not exist: /models/a.gguf".to_string())
    );
    assert_eq!(validate_launch_config(&config, true, false, false), Ok(()));

    let mut repo = test_launch_config("/models/a.gguf");
    repo.hf_repo = Some("org/repo".to_string());
    assert_eq!(validate_launch_config(&repo, false, false, false), Ok(()));

    let mut zero_ctx = test_launch_config("/models/a.gguf");
    zero_ctx.context_size = Some(0);
    assert_eq!(
        validate_launch_config(&zero_ctx, true, false, false),
        Err("Context size must be greater than 0 when specified".to_string())
    );

    let mut slots = test_launch_config("/models/a.gguf");
    slots.parallel_slots = 0;
    assert_eq!(
        validate_launch_config(&slots, true, false, false),
        Err("Parallel slots must be at least 1".to_string())
    );

    let mut gpu = test_launch_config("/models/a.gguf");
    gpu.main_gpu = -1;
    assert_eq!(
        validate_launch_config(&gpu, true, false, false),
        Err("Main GPU index cannot be negative".to_string())
    );

    let mut draft_dir = test_launch_config("/models/a.gguf");
    draft_dir.draft_model_path = "  /models/drafts  ".to_string();
    assert_eq!(
        validate_launch_config(&draft_dir, true, true, false),
        Err("Draft model path is not a file: /models/drafts".to_string())
    );

    let mut cache = test_launch_config("/models/a.gguf");
    cache.cache_ram_mb = Some(0);
    assert_eq!(
        validate_launch_config(&cache, true, false, false),
        Err("cache_ram_mb must be greater than 0 when specified".to_string())
    );
}

#[test]
fn self_mtp_emits_spec_type_without_draft_model() {
    let mut config = test_launch_config("/models/Qwen3.6-27B-MTP-UD-Q4_K_XL.gguf");
    config.spec_type = "draft-mtp".to_string();
    config.spec_draft_n_max = 3;

    let preview = build_args_preview(
        &config,
        true,
        false,
        false,
        false,
        false,
        Some("/bin/llama-server.exe".to_string()),
        None,
        Ok(None),
    )
    .expect("build self-MTP preview");

    assert!(has_pair(&preview.args, "--spec-type", "draft-mtp"), "{:?}", preview.args);
    assert!(has_pair(&preview.args, "--spec-draft-n-max", "3"), "{:?}", preview.args);
    assert!(!preview.args.iter().any(|arg| arg == "-md"), "{:?}", preview.args);
}

#[test]
fn reasoning_preserve_emits_llama_server_flag() {
    let mut config = test_launch_config("/models/Qwen3.6-27B-Q4_K_M.gguf");
    config.reasoning_preserve = true;

    let preview = build_args_preview(
        &config,
        true,
        false,
        false,
        false,
        false,
        Some("/bin/llama-server.exe".to_string()),
        None,
        Ok(None),
    )
    .expect("build reasoning preserve preview");

    assert!(preview.args.contains(&"--reasoning-preserve".to_string()));
    assert!(preview.reasoning_preserve);
    assert_eq!(preview.runtime, "llama-server");
}

#[test]
fn dflash_emits_spec_type_with_draft_model() {
    let mut config = test_launch_config("/models/Qwen3.6-27B-Q4_K_M.gguf");
    config.draft_model_path = "/models/Qwen3.6-27B-DFlash-draft.gguf".to_string();
    config.spec_type = "draft-dflash".to_string();
    config.spec_draft_n_max = 8;

    let preview = build_args_preview(
        &config,
        true,
        true,
        true,
        false,
        false,
        Some("/bin/llama-server.exe".to_string()),
        None,
        Ok(None),
    )
    .expect("build DFlash preview");

    assert!(has_pair(&preview.args, "-md", "/models/Qwen3.6-27B-DFlash-draft.gguf"));
    assert!(has_pair(&preview.args, "--spec-type", "draft-dflash"));
    assert!(has_pair(&preview.args, "--spec-draft-n-max", "8"));
}

#[test]
fn diffusion_gemma_preview_uses_diffusion_cli_runner() {
    let mut config = test_launch_config("/models/diffusiongemma-26B-A4B-it-Q4_K_M.gguf");
    config.diffusion_extra_args = vec!["--diffusion-max-steps".to_string(), "48".to_string()];

    let preview = build_args_preview(
        &config,
        true,
        false,
        false,
        true,
        false,
        Some("/bin/llama-diffusion-cli".to_string()),
        None,
        Ok(None),
    )
    .expect("build diffusion preview");

    assert_eq!(preview.runtime, "diffusion-cli");
    assert_eq!(preview.server_path, "/bin/llama-diffusion-cli");
    assert_eq!(preview.port, 0);
    assert!(has_pair(&preview.args, "-m", "/models/diffusiongemma-26B-A4B-it-Q4_K_M.gguf"));
    assert!(has_pair(&preview.args, "-ngl", "999"));
    assert!(preview.args.contains(&"-cnv".to_string()));
    assert!(has_pair(&preview.args, "-n", "2048"));
    assert!(has_pair(&preview.args, "--diffusion-kv-cache", "auto"));
    assert!(preview.args.contains(&"--diffusion-visual".to_string()));
    assert!(has_pair(&preview.args, "--diffusion-max-steps", "48"));
}

#[test]
fn preview_failures() {
    let config = test_launch_config("/models/a.gguf");
    assert_eq!(
        build_args_preview(&config, true, false, false, false, false, None, None, Ok(None)).err(),
        Some("llama-server binary not found".to_string())
    );
    assert_eq!(
        build_args_preview(&config, true, false, false, true, false, None, None, Ok(None)).err(),
        Some("llama-diffusion-cli binary not found".to_string())
    );
    assert_eq!(
        build_args_preview(
            &config,
            true,
            false,
            false,
            false,
            false,
            Some("/bin/llama-server".to_string()),
            None,
            Err("bad kwargs".to_string())
        )
        .err(),
        Some("bad kwargs".to_string())
    );
    let mut repo = test_launch_config("/models/a.gguf");
    repo.hf_repo = Some("org/diffusion".to_string());
    let err = build_args_preview(&repo, false, false, false, true, false, Some("/bin/x".to_string()), None, Ok(None))
        .err()
        .unwrap();
    assert!(err.starts_with("DiffusionGemma currently requires a local GGUF file"));
}

#[test]
fn server_args_exact_order() {
    let mut config = test_launch_config("/models/m.gguf");
    config.context_size = Some(8192);
    config.gpu_layers = 20;
    config.threads = 8;
    config.use_mmap = false;
    config.main_gpu = -2;
    config.tensor_split = vec!["0.5".to_string(), "0.5".to_string()];
    config.extra_args = vec!["--verbose".to_string()];
    config.hf_repo = Some("org/repo".to_string());
    config.hf_file = Some("m.gguf".to_string());
    let args = build_server_args(&config, &Some("/models/mmproj.gguf".to_string()), &Some(" {} ".to_string()));
    let expected: Vec<&str> = vec![
        "-hf", "org/repo:m.gguf", "--port", "8800", "--parallel", "1", "--slots", "--ctx-size", "8192",
        "--mmproj", "/models/mmproj.gguf", "--chat-template-kwargs", " {} ", "--n-gpu-layers", "20",
        "--threads", "8", "--flash-attn", "on", "--no-mmap", "--cont-batching", "--main-gpu", "-2",
        "--defrag-thold", "0.1000", "--cache-type-k", "q8_0", "--cache-type-v", "q8_0", "--kv-unified",
        "--tensor-split", "0.5,0.5", "--verbose",
    ];
    assert_eq!(args, expected);
}

#[test]
fn diffusion_args_exact_order() {
    let mut config = test_launch_config("/models/d.gguf");
    config.gpu_layers = 12;
    config.diffusion_n_predict = 0;
    config.diffusion_kv_cache = "  ".to_string();
    config.diffusion_visual = false;
    let args = build_diffusion_args(&config);
    assert_eq!(args, vec!["-m", "/models/d.gguf", "-ngl", "12", "-cnv", "-n", "1"]);
}

#[test]
fn finds_gemma4_mmproj_sidecar() {
    let names = vec![
        "gemma-4-12B-it-Q4_K_M.gguf".to_string(),
        "mmproj-gemma-4-12B-it-BF16.gguf".to_string(),
    ];
    let found = find_mmproj_for_model("gemma-4-12B-it-Q4_K_M", "gemma-4-12B-it-Q4_K_M.gguf", &names)
        .expect("mmproj should be found");
    assert_eq!(names[found], "mmproj-gemma-4-12B-it-BF16.gguf");
}

#[test]
fn ignores_unrelated_mmproj_sidecar() {
    let names = vec![
        "gemma-4-12B-it-Q4_K_M.gguf".to_string(),
        "mmproj-qwen2-vl-7B-BF16.gguf".to_string(),
    ];
    assert!(find_mmproj_for_model("gemma-4-12B-it-Q4_K_M", "gemma-4-12B-it-Q4_K_M.gguf", &names).is_none());
}

#[test]
fn mmproj_prefers_most_shared_tokens_then_first() {
    let names = vec![
        "mmproj-qwen-small.gguf".to_string(),
        "qwen2-vl-7b-instruct-mmproj-f16.GGUF".to_string(),
        "qwen2-vl-7b-instruct-mmproj-q8.gguf".to_string(),
        "notes.txt".to_string(),
    ];
    let found = find_mmproj_for_model("Qwen2-VL-7B-Instruct-Q4_K_M", "Qwen2-VL-7B-Instruct-Q4_K_M.gguf", &names);
    assert_eq!(found, Some(1));
}

#[test]
fn mmproj_candidate_names() {
    assert!(is_mmproj_candidate("mmproj-model-f16.gguf"));
    assert!(is_mmproj_candidate("Qwen_MMPROJ.GgUf"));
    assert!(!is_mmproj_candidate("mmproj.bin"));
    assert!(!is_mmproj_candidate("model.gguf"));
    assert!(!is_mmproj_candidate(".gguf"));
    assert_eq!(shared_token_score("Gemma-4-12B-it", "mmproj-gemma-4-12b.gguf"), 2);
    assert_eq!(model_family_token("Phi-3-mini.gguf"), Some("phi"));
    assert_eq!(model_family_token("llama-3.gguf"), None);
}

#[test]
fn gemma4_reasoning_off_sets_enable_thinking_false() {
    let kwargs = normalize_chat_template_kwargs_for_profile(None, Some("off".to_string()), ModelFamily::Gemma4)
        .unwrap();
    assert_eq!(kwargs.as_deref(), Some(r#"{"enable_thinking":false}"#));
}

#[test]
fn qwen36_reasoning_off_sets_enable_thinking_false_without_clobbering_kwargs() {
    let kwargs = normalize_chat_template_kwargs_for_profile(
        Some(r#"{"preserve_thinking":true}"#.to_string()),
        Some("none".to_string()),
        ModelFamily::Qwen3,
    )
    .unwrap()
    .expect("kwargs should exist");
    let parsed: serde_json::Value = serde_json::from_str(&kwargs).unwrap();
    assert_eq!(parsed["enable_thinking"], false);
    assert_eq!(parsed["preserve_thinking"], true);
}

#[test]
fn explicit_enable_thinking_kwargs_are_preserved() {
    let kwargs = normalize_chat_template_kwargs_for_profile(
        Some(r#"{"enable_thinking":true}"#.to_string()),
        Some("off".to_string()),
        ModelFamily::Qwen3,
    )
    .unwrap();
    assert_eq!(kwargs.as_deref(), Some(r#"{"enable_thinking":true}"#));
}

#[test]
fn kwargs_pass_through_trimmed_and_reject_bad_json() {
    assert_eq!(
        normalize_chat_template_kwargs_for_profile(Some("  {\"a\":1}  ".to_string()), None, ModelFamily::Qwen3),
        Ok(Some("{\"a\":1}".to_string()))
    );
    assert_eq!(
        normalize_chat_template_kwargs_for_profile(Some("   ".to_string()), Some("off".to_string()), ModelFamily::Other),
        Ok(None)
    );
    let err = normalize_chat_template_kwargs_for_profile(Some("{oops".to_string()), Some("off".to_string()), ModelFamily::Gemma4)
        .unwrap_err();
    assert!(err.starts_with("Invalid chat_template_kwargs_json: "));
    assert_eq!(
        normalize_chat_template_kwargs_for_profile(Some("[1]".to_string()), Some("off".to_string()), ModelFamily::Gemma4),
        Err("chat_template_kwargs_json must be a JSON object".to_string())
    );
}

#[test]
fn thinking_switch_is_added_once_and_never_overrides() {
    let mut object = serde_json::Map::new();
    object.insert("top_k".to_string(), serde_json::Value::from(20));
    switch_thinking_off(&mut object);
    assert_eq!(object.get("enable_thinking"), Some(&serde_json::Value::Bool(false)));
    assert_eq!(object.get("top_k"), Some(&serde_json::Value::from(20)));
    assert_eq!(object.len(), 2);

    let mut kept = serde_json::Map::new();
    kept.insert("enable_thinking".to_string(), serde_json::Value::Bool(true));
    switch_thinking_off(&mut kept);
    assert_eq!(kept.get("enable_thinking"), Some(&serde_json::Value::Bool(true)));
    assert_eq!(kept.len(), 1);
}

#[test]
fn projector_is_attached_only_for_vision_models_that_ask_for_it() {
    let mut config = test_launch_config("/models/gemma-4-12b-it.gguf");
    let found = Some("/models/mmproj-gemma-4-12b.gguf".to_string());
    let server = Some("/bin/llama-server".to_string());
    for (attach, vision, expected) in [(true, true, true), (true, false, false), (false, true, false)] {
        config.attach_mmproj = attach;
        let preview = build_args_preview(&config, true, false, false, false, vision, server.clone(), found.clone(), Ok(None))
            .expect("preview");
        assert_eq!(has_pair(&preview.args, "--mmproj", "/models/mmproj-gemma-4-12b.gguf"), expected);
        assert_eq!(preview.mmproj_path.is_some(), expected);
    }
}

#[test]
fn speculation_and_preserve_flags_follow_the_settings() {
    let config = test_launch_config("/models/Qwen3.6-27B-Q4_K_M.gguf");
    let server = Some("/bin/llama-server".to_string());
    let plain = build_args_preview(&config, true, false, false, false, false, server.clone(), None, Ok(None)).unwrap();
    assert!(!plain.args.iter().any(|a| a == "--reasoning-preserve" || a == "-md" || a == "--spec-type"));
    assert!(!plain.args.iter().any(|a| a.starts_with("--draft-")));
    assert_eq!(plain.port, config.port);
    assert_eq!(plain.runtime, "llama-server");

    let mut draft = test_launch_config("/models/Qwen3.6-27B-Q4_K_M.gguf");
    draft.draft_model_path = "/models/draft.gguf".to_string();
    draft.draft_max_tokens = 16;
    let with_draft = build_args_preview(&draft, true, true, true, false, false, server, None, Ok(None)).unwrap();
    assert!(has_pair(&with_draft.args, "-md", "/models/draft.gguf"));
    assert!(has_pair(&with_draft.args, "--draft-max", "16"));
    assert!(!with_draft.args.iter().any(|a| a == "--spec-type"));
}

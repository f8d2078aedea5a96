use inference_bridge::image_status::{
    bundle_status, capability_status, profile_status, validate_profile, FloatSetting,
    ImageGenerationProfileConfig, ImageModelBundleConfig, ImageSetupFacts, PathFacts,
    TemperatureChecks,
};

fn setting(text: &str) -> FloatSetting {
    FloatSetting { text: text.to_string(), in_range: true }
}

fn profile(id: &str, width: u32, height: u32, steps: u32, sampler: &str) -> ImageGenerationProfileConfig {
    ImageGenerationProfileConfig {
        id: id.to_string(),
        name: "Quality".to_string(),
        width,
        height,
        steps,
        sampling_method: sampler.to_string(),
        cfg_scale: setting("2.5"),
        flow_shift: setting("3"),
        max_vram_gib: setting("22"),
        timeout_seconds: 1800,
        auto_fit: true,
        diffusion_flash_attention: true,
    }
}

fn file(ext: &str) -> PathFacts {
    PathFacts {
        absolute: true,
        exists: true,
        is_file: true,
        is_dir: false,
        extension: Some(ext.to_string()),
    }
}

fn dir() -> PathFacts {
    PathFacts { absolute: true, exists: true, is_file: false, is_dir: true, extension: None }
}

fn bundle(id: &str) -> ImageModelBundleConfig {
    ImageModelBundleConfig {
        id: id.to_string(),
        name: "Qwen".to_string(),
        architecture: "qwen_image".to_string(),
        quantization: "Q6_K".to_string(),
        transformer_path: "/models/transformer.gguf".to_string(),
        text_encoder_path: "/models/encoder.gguf".to_string(),
        vae_path: "/models/vae.safetensors".to_string(),
    }
}

fn setup() -> ImageSetupFacts {
    ImageSetupFacts {
        enabled: true,
        runner_path: "/opt/sd/sd-cli".to_string(),
        runner: file(""),
        output_dir: "".to_string(),
        output: dir(),
        temperatures: TemperatureChecks {
            warn_in_range: true,
            cooldown_in_range: true,
            cooldown_at_or_above_warn: false,
        },
        default_bundle: "qwen".to_string(),
        default_profile: "quality".to_string(),
    }
}

#[test]
fn a_sound_profile_validates() {
    assert_eq!(validate_profile(&profile("quality", 1024, 1024, 30, "euler")), Ok(()));
    let status = profile_status(&profile("quality", 1328, 1328, 150, "dpm++2m"));
    assert!(status.ready);
    assert_eq!(status.reason, None);
}

#[test]
fn profile_problems_come_in_order() {
    assert_eq!(
        validate_profile(&profile("  ", 10, 10, 0, "bogus")),
        Err("Image profile id is empty".to_string())
    );
    assert_eq!(
        validate_profile(&profile("q", 1000, 1024, 30, "euler")),
        Err("Image dimensions must be multiples of 16 between 64 and 2048".to_string())
    );
    assert_eq!(
        validate_profile(&profile("q", 2064, 1024, 30, "euler")),
        Err("Image dimensions must be multiples of 16 between 64 and 2048".to_string())
    );
    assert_eq!(
        validate_profile(&profile("q", 1024, 1024, 151, "euler")),
        Err("Image steps must be between 1 and 150".to_string())
    );
    assert_eq!(
        validate_profile(&profile("q", 1024, 1024, 20, "Euler")),
        Err("Unsupported image sampler: Euler".to_string())
    );
    let mut p = profile("q", 1024, 1024, 20, "heun");
    p.cfg_scale.in_range = false;
    assert_eq!(validate_profile(&p), Err("Image CFG scale must be between 0 and 20".to_string()));
    let mut p = profile("q", 1024, 1024, 20, "heun");
    p.timeout_seconds = 29;
    assert_eq!(
        validate_profile(&p),
        Err("Image timeout must be between 30 seconds and 4 hours".to_string())
    );
    let status = profile_status(&p);
    assert!(!status.ready);
    assert_eq!(
        status.reason,
        Some("Image timeout must be between 30 seconds and 4 hours".to_string())
    );
}

#[test]
fn a_complete_bundle_is_ready() {
    let status = bundle_status(&bundle("qwen"), &file("GGUF"), &file("gguf"), &file("safetensors"));
    assert!(status.ready);
    assert!(status.reasons.is_empty());
    assert_eq!(status.quantization, "Q6_K");
}

#[test]
fn bundle_reasons_name_each_file() {
    let mut b = bundle(" ");
    b.architecture = "sdxl".to_string();
    b.text_encoder_path = "   ".to_string();
    let missing = PathFacts { absolute: true, exists: false, is_file: false, is_dir: false, extension: None };
    let status = bundle_status(&b, &file("bin"), &missing, &missing);
    assert!(!status.ready);
    assert_eq!(
        status.reasons,
        vec![
            "Bundle id is empty".to_string(),
            "Unsupported image architecture: sdxl".to_string(),
            "transformer has unsupported file type: /models/transformer.gguf".to_string(),
            "text encoder path is not configured".to_string(),
            "VAE file does not exist: /models/vae.safetensors".to_string(),
        ]
    );
    let relative = PathFacts { absolute: false, exists: true, is_file: true, is_dir: false, extension: None };
    let status = bundle_status(&bundle("qwen"), &relative, &file("gguf"), &file("safetensors"));
    assert_eq!(status.reasons, vec!["transformer path must be absolute".to_string()]);
}

#[test]
fn a_complete_setup_is_ready() {
    let bundles = vec![bundle_status(&bundle("qwen"), &file("gguf"), &file("gguf"), &file("safetensors"))];
    let profiles = vec![profile_status(&profile("quality", 1024, 1024, 30, "euler"))];
    let check = capability_status(&setup(), bundles, profiles);
    assert!(check.ready);
    assert!(check.reasons.is_empty());
    assert_eq!(check.bundles.len(), 1);
}

#[test]
fn setup_reasons_cover_duplicates_and_defaults() {
    let mut s = setup();
    s.enabled = false;
    s.runner_path = "".to_string();
    s.output_dir = " /srv/images ".to_string();
    s.output = file("png");
    s.temperatures.warn_in_range = false;
    s.temperatures.cooldown_at_or_above_warn = true;
    s.default_profile = "fast".to_string();
    let good = || bundle_status(&bundle("qwen"), &file("gguf"), &file("gguf"), &file("safetensors"));
    let bundles = vec![good(), good(), good()];
    let profiles = vec![
        profile_status(&profile("quality", 1024, 1024, 30, "euler")),
        profile_status(&profile("fast", 1024, 1024, 0, "euler")),
        profile_status(&profile("quality", 1024, 1024, 30, "euler")),
    ];
    let check = capability_status(&s, bundles, profiles);
    assert!(!check.ready);
    assert_eq!(
        check.reasons,
        vec![
            "Image generation is disabled in configuration".to_string(),
            "Image runner path is not configured".to_string(),
            "Image output path is not a directory: /srv/images".to_string(),
            "Image warning temperature must be between 40 and 100 C".to_string(),
            "Cooldown temperature must be below warning temperature".to_string(),
            "Duplicate image bundle id: qwen".to_string(),
            "Duplicate image bundle id: qwen".to_string(),
            "Duplicate image profile id: quality".to_string(),
            "Default image profile `fast` is missing or invalid".to_string(),
        ]
    );
}

#[test]
fn a_disabled_setup_is_never_ready() {
    let mut s = setup();
    s.enabled = false;
    let bundles = vec![bundle_status(&bundle("qwen"), &file("gguf"), &file("gguf"), &file("safetensors"))];
    let profiles = vec![profile_status(&profile("quality", 1024, 1024, 30, "euler"))];
    let check = capability_status(&s, bundles, profiles);
    assert!(!check.ready);
    assert!(!check.enabled);
    assert_eq!(check.reasons, vec!["Image generation is disabled in configuration".to_string()]);
}

use inference_bridge::image_request::{
    build_native_arguments, build_preview, image_readiness, join_strings, resolve_job,
    resolve_job_with_seed, BundleEntry, ImageGenerationRequest,
};
use inference_bridge::image_status::{
    FloatSetting, ImageGenerationProfileConfig, ImageModelBundleConfig, ImageSetupFacts,
    PathFacts, TemperatureChecks,
};

fn setting(text: &str) -> FloatSetting {
    FloatSetting { text: text.to_string(), in_range: true }
}

fn quality() -> ImageGenerationProfileConfig {
    ImageGenerationProfileConfig {
        id: "quality".to_string(),
        name: "Quality".to_string(),
        width: 1024,
        height: 1024,
        steps: 50,
        sampling_method: "euler".to_string(),
        cfg_scale: setting("2.5"),
        flow_shift: setting("3"),
        max_vram_gib: setting("22"),
        timeout_seconds: 1800,
        auto_fit: true,
        diffusion_flash_attention: true,
    }
}

fn bundle() -> ImageModelBundleConfig {
    ImageModelBundleConfig {
        id: "qwen".to_string(),
        name: "Qwen".to_string(),
        architecture: "qwen_image".to_string(),
        quantization: "Q6_K".to_string(),
        transformer_path: "C:\\models\\transformer.gguf".to_string(),
        text_encoder_path: "C:\\models\\encoder.gguf".to_string(),
        vae_path: "C:\\models\\vae.safetensors".to_string(),
    }
}

fn file(ext: &str) -> PathFacts {
    PathFacts { absolute: true, exists: true, is_file: true, is_dir: false, extension: Some(ext.to_string()) }
}

fn entry() -> BundleEntry {
    BundleEntry { config: bundle(), transformer: file("gguf"), text_encoder: file("gguf"), vae: file("safetensors") }
}

fn setup() -> ImageSetupFacts {
    ImageSetupFacts {
        enabled: true,
        runner_path: " /opt/sd/sd-cli ".to_string(),
        runner: file(""),
        output_dir: "".to_string(),
        output: PathFacts { absolute: false, exists: false, is_file: false, is_dir: false, extension: None },
        temperatures: TemperatureChecks {
            warn_in_range: true,
            cooldown_in_range: true,
            cooldown_at_or_above_warn: false,
        },
        default_bundle: "qwen".to_string(),
        default_profile: "quality".to_string(),
    }
}

fn request(prompt: &str) -> ImageGenerationRequest {
    ImageGenerationRequest {
        prompt: prompt.to_string(),
        session_id: None,
        bundle_id: None,
        profile_id: None,
        seed: Some(42),
        width: None,
        height: None,
        steps: None,
        cfg_scale: None,
        sampling_method: None,
        negative_prompt: None,
    }
}

fn after<'a>(arguments: &'a [String], flag: &str) -> &'a str {
    &arguments[arguments.iter().position(|arg| arg == flag).unwrap() + 1]
}

#[test]
fn native_arguments_are_allowlisted_and_prompt_is_one_argument() {
    let profile = quality();
    let prompt = "A cat beside a sign reading \"EXACT TEXT\"";
    let arguments =
        build_native_arguments(&bundle(), &profile, prompt, Some("blurry, distorted"), 42, "output.png");
    assert_eq!(after(&arguments, "-p"), prompt);
    assert!(arguments.contains(&"--auto-fit".to_string()));
    assert!(arguments.contains(&"--diffusion-fa".to_string()));
    assert!(!arguments.contains(&"--taesd".to_string()));
    assert_eq!(after(&arguments, "-n"), "blurry, distorted");
    assert_eq!(after(&arguments, "--steps"), "50");
}

#[test]
fn native_arguments_spell_out_every_setting() {
    let mut profile = quality();
    profile.auto_fit = false;
    profile.diffusion_flash_attention = false;
    let arguments = build_native_arguments(&bundle(), &profile, "p", None, -7, "/out/a.png");
    assert_eq!(
        arguments,
        vec![
            "--diffusion-model", "C:\\models\\transformer.gguf", "--vae", "C:\\models\\vae.safetensors",
            "--llm", "C:\\models\\encoder.gguf", "-p", "p", "--cfg-scale", "2.5",
            "--sampling-method", "euler", "--flow-shift", "3", "-W", "1024", "-H", "1024",
            "--steps", "50", "--seed", "-7", "--rng", "cuda", "--output", "/out/a.png",
            "--max-vram", "22", "--verbose",
        ]
    );
}

#[test]
fn a_ready_setup_resolves_a_job() {
    let mut req = request("  a lighthouse at dusk  ");
    req.width = Some(1664);
    req.height = Some(928);
    req.sampling_method = Some(" Euler_A ".to_string());
    req.negative_prompt = Some("   ".to_string());
    let job = resolve_job(&setup(), &vec![entry()], &vec![quality()], &req, "/out/x.png").unwrap();
    assert_eq!(job.runner_path, "/opt/sd/sd-cli");
    assert_eq!(job.prompt, "a lighthouse at dusk");
    assert_eq!(job.negative_prompt, None);
    assert_eq!(job.seed, 42);
    assert_eq!((job.profile.width, job.profile.height), (1664, 928));
    assert_eq!(job.profile.sampling_method, "euler_a");
    assert_eq!(after(&job.arguments, "-W"), "1664");
    assert_eq!(after(&job.arguments, "--seed"), "42");
    assert!(!job.arguments.contains(&"-n".to_string()));
}

#[test]
fn a_missing_seed_is_drawn_at_random() {
    let mut req = request("a fox");
    req.seed = None;
    let job = resolve_job(&setup(), &vec![entry()], &vec![quality()], &req, "/out/x.png").unwrap();
    assert!(job.seed >= 0 && job.seed <= u32::MAX as i64);
    let fixed = resolve_job_with_seed(&setup(), &vec![entry()], &vec![quality()], &req, "/out/x.png", 7).unwrap();
    assert_eq!(fixed.seed, 7);
}

#[test]
fn request_problems_are_reported() {
    let s = setup();
    let entries = vec![entry()];
    let profiles = vec![quality()];
    let err = |req: &ImageGenerationRequest| resolve_job(&s, &entries, &profiles, req, "/o.png").unwrap_err();
    assert_eq!(err(&request("   ")), "Image prompt cannot be empty");
    assert_eq!(err(&request(&"x".repeat(8001))), "Image prompt exceeds the 8000 character limit");
    assert_eq!(err(&request("a\0b")), "Image prompt contains an invalid null character");
    let mut req = request("ok");
    req.bundle_id = Some("other".to_string());
    assert_eq!(err(&req), "Unknown image bundle: other");
    let mut req = request("ok");
    req.profile_id = Some("fast".to_string());
    assert_eq!(err(&req), "Unknown image profile: fast");
    let mut req = request("ok");
    req.steps = Some(0);
    assert_eq!(err(&req), "Image steps must be between 1 and 150");
    let mut req = request("ok");
    req.cfg_scale = Some(FloatSetting { text: "25".to_string(), in_range: false });
    assert_eq!(err(&req), "Image CFG scale must be between 0 and 20");
    let mut req = request("ok");
    req.sampling_method = Some("lms".to_string());
    assert_eq!(err(&req), "Unsupported image sampler: lms");
    let mut req = request("ok");
    req.negative_prompt = Some("n".repeat(4001));
    assert_eq!(err(&req), "Negative image prompt exceeds the 4000 character limit");
    let mut req = request("ok");
    req.negative_prompt = Some(" bad\0 ".to_string());
    assert_eq!(err(&req), "Negative image prompt contains an invalid null character");
}

#[test]
fn an_unready_setup_reports_all_reasons() {
    let mut s = setup();
    s.enabled = false;
    s.default_profile = "none".to_string();
    let e = resolve_job(&s, &vec![entry()], &vec![quality()], &request("ok"), "/o.png").unwrap_err();
    assert_eq!(
        e,
        "Image generation is disabled in configuration; Default image profile `none` is missing or invalid"
    );
    let check = image_readiness(&s, &vec![entry()], &vec![quality()]);
    assert!(!check.ready);
    assert_eq!(check.reasons.len(), 2);
    assert!(check.bundles[0].ready && check.profiles[0].ready);
}

#[test]
fn a_broken_non_default_bundle_is_refused_by_name() {
    let mut broken = entry();
    broken.config.id = "alt".to_string();
    broken.vae = file("bin");
    let mut req = request("ok");
    req.bundle_id = Some("alt".to_string());
    let e = resolve_job(&setup(), &vec![entry(), broken], &vec![quality()], &req, "/o.png").unwrap_err();
    assert_eq!(e, "VAE has unsupported file type: C:\\models\\vae.safetensors");
}

#[test]
fn preview_shows_the_resolved_job() {
    let p = build_preview(&setup(), &vec![entry()], &vec![quality()], &request("ok"), "/out/image-preview.png")
        .unwrap();
    assert_eq!(p.bundle_id, "qwen");
    assert_eq!(p.profile_name, "Quality");
    assert_eq!((p.width, p.height, p.steps, p.seed), (1024, 1024, 50, 42));
    assert_eq!(p.output_path, "/out/image-preview.png");
    assert_eq!(after(&p.arguments, "--output"), "/out/image-preview.png");
}

#[test]
fn joining_reasons() {
    assert_eq!(join_strings(&vec!["a".to_string(), "b".to_string()], "; "), "a; b");
    assert_eq!(join_strings(&vec![], "; "), "");
}

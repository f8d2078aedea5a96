use inference_bridge::debug::{dry_run_model_name, template_dry_run_report, TemplateDryRunRequest};

fn request(mode: &str) -> TemplateDryRunRequest {
    TemplateDryRunRequest {
        model_name: None,
        use_jinja: true,
        template_mode: mode.to_string(),
        template_name: None,
        custom_template_path: None,
        chat_template_kwargs_json: None,
        reasoning_mode: "".to_string(),
        parallel_slots: 1,
    }
}

const CHATML: &str = "<|im_start|>system\nYou are...<|im_end|>\n<|im_start|>assistant\n";

fn report(model: &str, req: &TemplateDryRunRequest, exists: bool, prompt: &str) -> (Vec<String>, Vec<String>) {
    let r = template_dry_run_report(
        model.to_string(),
        "Qwen3".to_string(),
        "Jinja".to_string(),
        "QwenXml".to_string(),
        prompt.to_string(),
        req,
        exists,
    );
    assert_eq!(r.model_name, model);
    assert_eq!(r.prompt, prompt);
    (r.checks, r.warnings)
}

#[test]
fn model_name_falls_back_in_order() {
    assert_eq!(dry_run_model_name(Some("  Gemma-4  "), Some("loaded.gguf"), None), "Gemma-4");
    assert_eq!(dry_run_model_name(Some("   "), Some("loaded.gguf"), None), "loaded.gguf");
    assert_eq!(dry_run_model_name(None, None, Some("/models/qwen/Qwen3-8B.gguf")), "Qwen3-8B.gguf");
    assert_eq!(dry_run_model_name(None, None, None), "Qwen3.6-27B-GGUF");
}

#[test]
fn a_well_configured_qwen_launch_passes() {
    let mut req = request(" Repo ");
    req.reasoning_mode = "off".to_string();
    req.chat_template_kwargs_json = Some(" {\"enable_thinking\": false} ".to_string());
    let (checks, warnings) = report("Qwen3-8B-Q4_K_M.gguf", &req, false, CHATML);
    assert_eq!(
        checks,
        vec![
            "Jinja rendering is enabled for llama.cpp launch.",
            "Template mode is repo.",
            "Qwen reasoning mode is off.",
            "Parallel slots set to 1 for Qwen tool reliability.",
            "Template kwargs JSON parses successfully.",
            "Rendered prompt contains a system turn marker.",
            "Rendered prompt contains an assistant generation marker.",
        ]
    );
    assert!(warnings.is_empty());
}

#[test]
fn a_careless_qwen_launch_is_warned_about() {
    let mut req = request("custom");
    req.use_jinja = false;
    req.parallel_slots = 4;
    req.chat_template_kwargs_json = Some("{not json".to_string());
    let (checks, warnings) = report("my-QWEN-model", &req, false, "plain text");
    assert!(checks.is_empty());
    assert_eq!(
        warnings,
        vec![
            "my-QWEN-model looks template-sensitive but Use Jinja is disabled.",
            "Template mode is custom but no custom template path is set.",
            "Qwen launch has no explicit reasoning mode.",
            "Qwen tool reliability is usually best with one slot; current setting is 4.",
            "Template kwargs JSON is not valid JSON.",
            "Rendered prompt did not include a recognizable system turn marker.",
            "Rendered prompt did not include a recognizable assistant generation marker.",
        ]
    );
}

#[test]
fn template_modes_are_reported() {
    let mut req = request("BUILTIN");
    req.template_name = Some("chatml".to_string());
    let (checks, _) = report("llama", &req, false, "<|turn>system x <|turn>model");
    assert_eq!(checks[1], "Template mode is builtin (chatml).");
    assert_eq!(checks.len(), 4);

    let (checks, _) = report("llama", &request("builtin"), false, "");
    assert_eq!(checks[1], "Template mode is builtin.");

    let mut req = request("custom");
    req.custom_template_path = Some("  /t/custom.jinja ".to_string());
    let (checks, _) = report("llama", &req, true, "");
    assert_eq!(checks[1], "Custom template exists: /t/custom.jinja.");
    let (_, warnings) = report("llama", &req, false, "");
    assert_eq!(warnings[0], "Custom template path does not exist: /t/custom.jinja.");

    let (_, warnings) = report("llama", &request("  "), false, "");
    assert_eq!(warnings[0], "Template mode is blank; launch will fall back to defaults.");

    let (_, warnings) = report("llama", &request("Weird"), false, "");
    assert_eq!(warnings[0], "Template mode \"weird\" is not one of repo/custom/builtin.");
}

#[test]
fn qwen_without_kwargs_is_warned_about() {
    let mut req = request("repo");
    req.reasoning_mode = "on".to_string();
    req.chat_template_kwargs_json = Some("   ".to_string());
    let (_, warnings) = report("qwen", &req, false, CHATML);
    assert_eq!(
        warnings,
        vec![
            "Qwen launch has no chat_template_kwargs_json; thinking/tool behavior may depend on template defaults."
        ]
    );
}

use inference_bridge::hub::{
    basename_lower, build_hf_sync_queries, hf_sync_queries_for_stem, extract_quant, file_size_bytes,
    find_repo_chat_template_path, format_downloads, format_parameter_count, hf_api_to_hub,
    hf_supports_vision, is_hf_downloadable, is_hf_featured_candidate, push_unique_query, tag_value,
    GatedValue, HfApiModel, HfGgufMetadata, HfLfs, HfSibling,
};

fn bare_model(model_id: &str) -> HfApiModel {
    HfApiModel {
        model_id: model_id.to_string(),
        author: None,
        downloads: 0,
        likes: 0,
        created_at: None,
        last_modified: None,
        pipeline_tag: None,
        library_name: None,
        tags: vec![],
        gguf: None,
        private: false,
        disabled: false,
        gated: None,
        siblings: vec![],
    }
}

fn sibling(name: &str, size: Option<u64>) -> HfSibling {
    HfSibling { rfilename: name.to_string(), size, lfs: None }
}

#[test]
fn maps_huihui_hugging_face_metadata_into_hub_model() {
    let tags = [
        "transformers",
        "gguf",
        "abliterated",
        "uncensored",
        "GGUF",
        "MTP",
        "image-text-to-text",
        "base_model:Qwen/Qwen3.6-27B",
        "license:apache-2.0",
        "endpoints_compatible",
        "region:us",
        "conversational",
        "qwen35",
        "vision",
        "tool-use",
        "reasoning",
        "extra",
    ];
    let api_model = HfApiModel {
        model_id: "huihui-ai/Huihui-Qwen3.6-27B-abliterated-MTP-GGUF".to_string(),
        author: Some("huihui-ai".to_string()),
        downloads: 95945,
        likes: 76,
        created_at: Some("2026-05-19T05:52:43.000Z".to_string()),
        last_modified: Some("2026-05-19T06:04:10.000Z".to_string()),
        pipeline_tag: Some("image-text-to-text".to_string()),
        library_name: Some("transformers".to_string()),
        tags: tags.iter().map(|t| t.to_string()).collect(),
        gguf: Some(HfGgufMetadata {
            total: Some(27320697856_u64),
            architecture: Some("qwen35".to_string()),
            context_length: Some(262144),
        }),
        private: false,
        disabled: false,
        gated: Some(GatedValue::Bool(false)),
        siblings: vec![
            sibling("Huihui-Qwen3.6-27B-abliterated-Q4_K_M.gguf", Some(17740000000_u64)),
            sibling("mmproj-model-f16.gguf", Some(900000000_u64)),
        ],
    };

    let hub = hf_api_to_hub(api_model, false, Some("# Model card".to_string()))
        .expect("public GGUF fixture should map");

    assert_eq!(hub.author.as_deref(), Some("huihui-ai"));
    assert_eq!(hub.created_at.as_deref(), Some("2026-05-19T05:52:43.000Z"));
    assert_eq!(hub.library_name.as_deref(), Some("transformers"));
    assert_eq!(hub.gguf_total, Some(27_320_697_856));
    assert_eq!(hub.gguf_architecture.as_deref(), Some("qwen35"));
    assert_eq!(hub.gguf_context_length, Some(262_144));
    assert_eq!(hub.params, "27.3B");
    assert!(hub.supports_vision);
    assert_eq!(hub.quants.len(), 1, "mmproj files are not model quants");
    assert_eq!(hub.tags.len(), 12);
    assert_eq!(
        hub.tags
            .iter()
            .filter(|tag| tag.eq_ignore_ascii_case("gguf"))
            .count(),
        1,
        "case variants of GGUF should be deduplicated"
    );
    assert!(hub.tags.iter().any(|tag| tag == "reasoning"));
    assert!(!hub.tags.iter().any(|tag| tag.contains(':')));
}

#[test]
fn compacts_gguf_parameter_counts_in_billions_or_millions() {
    assert_eq!(format_parameter_count(27_320_697_856), "27.3B");
    assert_eq!(format_parameter_count(7_500_000_000), "7.5B");
    assert_eq!(format_parameter_count(355_000_000), "355M");
}

#[test]
fn parameter_counts_round_and_drop_a_zero_fraction() {
    assert_eq!(format_parameter_count(999), "999");
    assert_eq!(format_parameter_count(1_000_000), "1M");
    assert_eq!(format_parameter_count(1_049_999), "1M");
    assert_eq!(format_parameter_count(1_050_000), "1.1M");
    assert_eq!(format_parameter_count(70_000_000_000), "70B");
    assert_eq!(format_parameter_count(u64::MAX), "18446744073.7B");
}

#[test]
fn download_counts_get_thousands_separators() {
    assert_eq!(format_downloads(0), "0");
    assert_eq!(format_downloads(999), "999");
    assert_eq!(format_downloads(1000), "1,000");
    assert_eq!(format_downloads(95945), "95,945");
    assert_eq!(format_downloads(1234567), "1,234,567");
}

#[test]
fn public_mode_rejects_gated_models() {
    let mut model = bare_model("owner/model");
    model.gated = Some(GatedValue::Text("manual".to_string()));

    assert!(!is_hf_downloadable(&model, false));
}

#[test]
fn authenticated_mode_allows_gated_models() {
    let mut model = bare_model("owner/model");
    model.gated = Some(GatedValue::Text("manual".to_string()));

    assert!(is_hf_downloadable(&model, true));
}

#[test]
fn authenticated_mode_allows_private_models_returned_by_hf() {
    let mut model = bare_model("owner/private");
    model.private = true;

    assert!(is_hf_downloadable(&model, true));
}

#[test]
fn disabled_and_private_models_are_refused_in_public_mode() {
    let mut disabled = bare_model("a/b");
    disabled.disabled = true;
    assert!(!is_hf_downloadable(&disabled, true));
    let mut private = bare_model("a/b");
    private.private = true;
    assert!(!is_hf_downloadable(&private, false));
    let mut null_gate = bare_model("a/b");
    null_gate.gated = Some(GatedValue::Null);
    assert!(is_hf_downloadable(&null_gate, false));
}

#[test]
fn reduces_quantized_filename_to_searchable_hf_queries() {
    let queries = build_hf_sync_queries("Qwen3.5-35B-A3B-Q4_K_M.gguf");
    assert!(queries.iter().any(|query| query == "Qwen3.5-35B-A3B"));
}

#[test]
fn sync_queries_come_from_the_stem_of_the_final_component() {
    assert_eq!(
        build_hf_sync_queries("models/Qwen3.5-35B-A3B-Q4_K_M.gguf"),
        hf_sync_queries_for_stem("Qwen3.5-35B-A3B-Q4_K_M")
    );
    assert_eq!(build_hf_sync_queries("dir/Phi-3-mini.Q8_0.gguf"), hf_sync_queries_for_stem("Phi-3-mini.Q8_0"));
    assert_eq!(build_hf_sync_queries("x/.hidden-model-q4"), hf_sync_queries_for_stem(".hidden-model-q4"));
    assert_eq!(build_hf_sync_queries("Qwen3.5-35B-A3B-Q4_K_M"), hf_sync_queries_for_stem("Qwen3"));
}

#[test]
fn sync_queries_are_unique_and_at_least_four_bytes() {
    let mut queries = Vec::new();
    let mut seen = Vec::new();
    push_unique_query(&mut queries, &mut seen, " -abc- ");
    assert!(queries.is_empty());
    push_unique_query(&mut queries, &mut seen, "--Model--");
    push_unique_query(&mut queries, &mut seen, "MODEL");
    assert_eq!(queries, vec!["Model".to_string()]);
    assert_eq!(seen, vec!["model".to_string()]);
}

#[test]
fn detects_vision_from_hugging_face_pipeline_tag() {
    let mut model = bare_model("Qwen/Qwen3.5-35B-A3B");
    model.pipeline_tag = Some("image-text-to-text".to_string());
    model.tags = vec!["gguf".to_string()];

    assert!(hf_supports_vision(&model));
}

#[test]
fn detects_vision_from_hugging_face_tags() {
    let mut model = bare_model("HauhauCS/Qwen3.5-35B-A3B-Uncensored");
    model.tags = vec!["gguf".to_string(), "vision".to_string(), "multimodal".to_string()];

    assert!(hf_supports_vision(&model));
}

#[test]
fn plain_text_models_do_not_support_vision() {
    let mut model = bare_model("a/b");
    model.tags = vec!["gguf".to_string()];
    model.pipeline_tag = Some("text-generation".to_string());
    assert!(!hf_supports_vision(&model));
}

#[test]
fn detects_actual_repo_chat_template_sibling() {
    let mut model = bare_model("owner/model");
    model.siblings = vec![
        sibling("Qwen3-8B-Q4_K_M.gguf", None),
        sibling("nested/chat_template.jinja", None),
    ];

    assert_eq!(
        find_repo_chat_template_path(&model).as_deref(),
        Some("nested/chat_template.jinja")
    );
}

#[test]
fn leaves_repo_template_empty_when_sibling_is_absent() {
    let mut model = bare_model("owner/model");
    model.siblings = vec![
        sibling("Qwen3-8B-Q4_K_M.gguf", None),
        sibling("tokenizer_config.json", None),
    ];

    assert!(find_repo_chat_template_path(&model).is_none());
}

#[test]
fn quant_labels_come_from_known_names_or_the_last_piece() {
    assert_eq!(extract_quant("model-q4_k_m.gguf"), "Q4_K_M");
    assert_eq!(extract_quant("model-IQ4_XS.gguf"), "IQ4_XS");
    assert_eq!(extract_quant("model-custom.gguf.gguf"), "CUSTOM");
}

#[test]
fn featured_candidates_skip_embeddings_and_converters() {
    let mut model = bare_model("org/Some-Embedding-Model");
    assert!(!is_hf_featured_candidate(&model));
    model.model_id = "org/chat".to_string();
    model.tags = vec!["ONNX".to_string()];
    assert!(!is_hf_featured_candidate(&model));
    model.tags = vec!["gguf".to_string()];
    assert!(is_hf_featured_candidate(&model));
}

#[test]
fn tag_values_and_sizes() {
    let tags = vec!["license:mit".to_string(), "license:apache".to_string()];
    assert_eq!(tag_value(&tags, "license:").as_deref(), Some("mit"));
    assert_eq!(tag_value(&tags, "base_model:"), None);
    let lfs_only = HfSibling { rfilename: "a".to_string(), size: None, lfs: Some(HfLfs { size: Some(7) }) };
    assert_eq!(file_size_bytes(&lfs_only), Some(7));
    assert_eq!(basename_lower("Dir/File.GGUF"), "file.gguf");
}

#[test]
fn cards_order_quants_by_size_with_unknown_sizes_last() {
    let mut model = bare_model("owner/My_Model-GGUF");
    model.downloads = 1234;
    model.siblings = vec![
        sibling("m-Q8_0.gguf", None),
        sibling("m-Q6_K.gguf", Some(30)),
        sibling("m-Q4_K_M.gguf", Some(10)),
        sibling("README.md", Some(1)),
    ];
    let hub = hf_api_to_hub(model, false, None).unwrap();
    let order: Vec<&str> = hub.quants.iter().map(|q| q.quant.as_str()).collect();
    assert_eq!(order, vec!["Q4_K_M", "Q6_K", "Q8_0"]);
    assert_eq!(hub.name, "My Model GGUF");
    assert_eq!(hub.family, "owner");
    assert_eq!(hub.description, "1,234 downloads | owner/My_Model-GGUF");
    assert_eq!(
        hub.quants[0].url,
        "https://huggingface.co/owner/My_Model-GGUF/resolve/main/m-Q4_K_M.gguf"
    );
}

#[test]
fn repositories_without_weights_have_no_card() {
    let mut model = bare_model("owner/x");
    model.siblings = vec![sibling("mmproj-f16.gguf", Some(1))];
    assert!(hf_api_to_hub(model, false, None).is_none());
}

#[test]
fn the_first_chat_template_in_any_case_is_taken() {
    let mut model = bare_model("owner/model");
    model.siblings = vec![
        sibling("README.md", None),
        sibling("templates/Chat_Template.JINJA", None),
        sibling("chat_template.jinja", None),
    ];
    assert_eq!(
        find_repo_chat_template_path(&model).as_deref(),
        Some("templates/Chat_Template.JINJA")
    );
}

fn float_parameter_count(total: u64) -> String {
    let (scale, suffix) = if total >= 1_000_000_000 {
        (1_000_000_000.0, "B")
    } else if total >= 1_000_000 {
        (1_000_000.0, "M")
    } else {
        return total.to_string();
    };
    let formatted = format!("{:.1}", total as f64 / scale);
    format!("{}{}", formatted.trim_end_matches(".0"), suffix)
}

#[test]
fn parameter_counts_round_as_the_float_formatting_does() {
    assert_eq!(format_parameter_count(1_250_000_000), "1.2B");
    assert_eq!(format_parameter_count(1_750_000_000), "1.8B");
    assert_eq!(format_parameter_count(1_050_000_000), "1.1B");
    assert_eq!(format_parameter_count(1_150_000_000), "1.1B");
    assert_eq!(format_parameter_count(999_950_000), "1000M");
    let mut samples: Vec<u64> = vec![
        999_999,
        1_000_000,
        1_049_999,
        1_050_000,
        2_250_000,
        999_999_999,
        1_000_000_000,
        27_320_697_856,
        (1u64 << 53) - 1,
        1u64 << 53,
        (1u64 << 53) + 1,
        u64::MAX,
        u64::MAX - 1024,
        18_446_744_073_709_000_000,
    ];
    for tenth in 0..2000u64 {
        samples.push(1_000_000_000 + tenth * 50_000_000);
        samples.push(1_000_000 + tenth * 50_000);
        samples.push(tenth * 12_345_678_901_234_567 % u64::MAX);
        samples.push(9_007_199_254_740_000_000u64.wrapping_add(tenth * 999_999_999_937));
    }
    for t in samples {
        assert_eq!(format_parameter_count(t), float_parameter_count(t), "total {t}");
    }
}

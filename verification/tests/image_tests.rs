use inference_bridge::image::{
    append_log_tail, configured_output_dir, image_size_presets, preview_output_path,
    NativeProgressParser,
};

#[test]
fn quality_defaults_and_official_sizes_are_stable() {
    let presets = image_size_presets();
    let recommended = presets
        .first()
        .expect("recommended square preset should exist");
    assert_eq!(recommended.id, "recommended_square");
    assert_eq!((recommended.width, recommended.height), (1024, 1024));
    for aspect_ratio in ["1:1", "16:9", "9:16", "4:3", "3:4", "3:2", "2:3"] {
        assert!(
            presets
                .iter()
                .any(|preset| preset.aspect_ratio == aspect_ratio),
            "missing {aspect_ratio} preset"
        );
    }
}

#[test]
fn presets_respect_runner_limits() {
    for preset in image_size_presets() {
        assert!(preset.width % 16 == 0 && preset.height % 16 == 0);
        assert!((64..=2048).contains(&preset.width) && (64..=2048).contains(&preset.height));
    }
}

#[test]
fn native_progress_parser_handles_split_and_repeated_chunks() {
    let mut parser = NativeProgressParser::new();
    assert_eq!(parser.push("loading model\r  |===="), None);
    let parsed = parser
        .push("====> | 11/50 - 3.54s/it\r")
        .expect("step should parse");
    assert_eq!(parsed.current_step, 11);
    assert_eq!(parsed.total_steps, 50);
    assert!((parsed.seconds_per_step.parse::<f64>().unwrap() - 3.54).abs() < f64::EPSILON);
    assert_eq!(parser.push("  |====> | 11/50 - 3.54s/it\r"), None);
}

#[test]
fn native_progress_parser_matches_measured_qwen_runner_output_only() {
    let mut parser = NativeProgressParser::new();
    let parsed = parser
        .push("\u{1b}[DEBUG]\r  |=======================> | 23/50 - 3.58s/it\u{1b}[K")
        .expect("measured runner progress should parse");
    assert_eq!(parsed.current_step, 23);
    assert_eq!(parsed.total_steps, 50);
    assert_eq!(
        parser.push("  |########| 104/104 - 662.24MB/s\u{1b}[K"),
        None
    );
}

#[test]
fn progress_past_the_total_is_ignored() {
    let mut parser = NativeProgressParser::new();
    assert_eq!(parser.push("51/50 - 1s/it"), None);
    let next = parser.push(" 12/50 -2.5s/it").unwrap();
    assert_eq!((next.current_step, next.total_steps), (12, 50));
    assert_eq!(next.seconds_per_step, "2.5");
}

#[test]
fn long_output_keeps_a_bounded_tail() {
    let mut parser = NativeProgressParser::new();
    assert_eq!(parser.push(&"x".repeat(5000)), None);
    let p = parser.push("3/9 - 7s/it").unwrap();
    assert_eq!(p.current_step, 3);
}

#[test]
fn output_locations() {
    assert_eq!(configured_output_dir("  /data/images  ", "/support"), "/data/images");
    let fallback = configured_output_dir("   ", "/support");
    assert!(fallback.starts_with("/support") && fallback.ends_with("images"));
    assert!(preview_output_path("/out", "/s").ends_with("image-preview.png"));
    assert_eq!(preview_output_path(" /out ", "/s"), "/out/image-preview.png");
    assert_eq!(preview_output_path("/out/", "/s"), "/out/image-preview.png");
    assert_eq!(configured_output_dir("", "/support"), "/support/images");
}

#[test]
fn log_tail_keeps_the_last_128_kib() {
    let mut log = Vec::new();
    append_log_tail(&mut log, &vec![b'a'; 100 * 1024]);
    append_log_tail(&mut log, &vec![b'b'; 100 * 1024]);
    assert_eq!(log.len(), 128 * 1024);
    assert_eq!(log[0], b'a');
    assert_eq!(*log.last().unwrap(), b'b');
}

use inference_bridge::downloads::{
    cancel_plan, content_range_matches_resume, effective_token, estimate_eta_seconds, manifest_sibling, partial_path_for,
    parse_content_range, pause_job, retain_download_after_clear, sanitize_download_subpath,
    should_auto_resume_status, CancelPlan, DownloadProgress, ParsedContentRange, PauseOutcome,
};
use std::path::PathBuf;

#[test]
fn parses_and_validates_http_content_ranges() {
    assert_eq!(
        parse_content_range("bytes 321-999/1000"),
        Some(ParsedContentRange::Satisfied {
            start: 321,
            end: 999,
            total: Some(1000)
        })
    );
    assert_eq!(
        parse_content_range("bytes */1000"),
        Some(ParsedContentRange::Unsatisfied { total: 1000 })
    );
    assert!(parse_content_range("bytes 999-321/1000").is_none());
    assert!(!content_range_matches_resume(
        parse_content_range("bytes 0-99/50"),
        0,
        Some(100)
    ));
    assert!(!content_range_matches_resume(
        parse_content_range("bytes 320-999/1000"),
        321,
        Some(680)
    ));
    assert!(content_range_matches_resume(
        parse_content_range("bytes 321-999/1000"),
        321,
        Some(679)
    ));
}

#[test]
fn content_range_edge_cases() {
    assert_eq!(
        parse_content_range("  bytes 0-0/*  "),
        Some(ParsedContentRange::Satisfied { start: 0, end: 0, total: None })
    );
    assert_eq!(parse_content_range("bytes 1-2"), None);
    assert_eq!(parse_content_range("items 1-2/3"), None);
    assert_eq!(parse_content_range("bytes 1-x/3"), None);
    assert_eq!(parse_content_range("bytes */*"), None);
    assert_eq!(
        parse_content_range("bytes +1-+2/+3"),
        Some(ParsedContentRange::Satisfied { start: 1, end: 2, total: Some(3) })
    );
    assert!(content_range_matches_resume(parse_content_range("bytes 5-9/*"), 5, None));
    assert!(!content_range_matches_resume(None, 0, None));
    assert!(!content_range_matches_resume(parse_content_range("bytes */10"), 0, None));
}

#[test]
fn eta_estimates() {
    assert_eq!(estimate_eta_seconds(0, 0, 10), None);
    assert_eq!(estimate_eta_seconds(0, 100, 0), None);
    assert_eq!(estimate_eta_seconds(100, 100, 10), None);
    assert_eq!(estimate_eta_seconds(0, 100, 10), Some(10));
    assert_eq!(estimate_eta_seconds(95, 100, 10), Some(1));
}

#[test]
fn auto_resume_statuses() {
    for status in ["Starting", "Resuming", "Downloading", "Retrying", "Interrupted"] {
        assert!(should_auto_resume_status(status));
    }
    for status in ["Paused", "Completed", "Failed", "downloading"] {
        assert!(!should_auto_resume_status(status));
    }
}

fn download_fixture(status: &str) -> DownloadProgress {
    DownloadProgress {
        id: "https://huggingface.co/owner/repo/resolve/main/model.gguf".to_string(),
        filename: "model.gguf".to_string(),
        dest_path: Some("/models/model.gguf".to_string()),
        partial_path: Some("/models/model.gguf.part".to_string()),
        supports_vision: None,
        repo_id: Some("owner/repo".to_string()),
        downloaded_bytes: 10,
        total_bytes: 100,
        speed_bps: None,
        eta_seconds: None,
        resumable: true,
        attempt: 1,
        done: false,
        status: status.to_string(),
        error: None,
    }
}

#[test]
fn clear_done_retains_failed_resumable_metadata() {
    let mut failed = download_fixture("Failed");
    failed.done = true;
    failed.resumable = true;
    assert!(retain_download_after_clear(&failed));
    failed.resumable = false;
    assert!(!retain_download_after_clear(&failed));
    failed.status = "Cleanup pending".to_string();
    assert!(retain_download_after_clear(&failed));
}

#[test]
fn cancel_and_pause_decisions() {
    let mut done = download_fixture("Completed");
    done.done = true;
    assert_eq!(cancel_plan(&done), CancelPlan::Nothing);
    assert_eq!(cancel_plan(&download_fixture("Paused")), CancelPlan::DiscardPartial);
    assert_eq!(cancel_plan(&download_fixture("Downloading")), CancelPlan::SignalRunning);

    let mut interrupted = download_fixture("Interrupted");
    interrupted.error = Some("x".to_string());
    assert_eq!(pause_job(&mut interrupted), PauseOutcome::Paused);
    assert_eq!(interrupted.status, "Paused");
    assert_eq!(interrupted.error, None);
    assert_eq!(pause_job(&mut interrupted), PauseOutcome::Unchanged);
    let mut running = download_fixture("Downloading");
    assert_eq!(pause_job(&mut running), PauseOutcome::Pausing);
    assert_eq!(running.status, "Pausing");
}

#[test]
fn allows_nested_repo_paths() {
    let path = sanitize_download_subpath("BF16/Qwen3.5-27B-BF16-00001-of-00002.gguf").unwrap();
    assert_eq!(
        path.iter().collect::<PathBuf>(),
        PathBuf::from("BF16").join("Qwen3.5-27B-BF16-00001-of-00002.gguf")
    );
}

#[test]
fn rejects_parent_traversal() {
    assert!(sanitize_download_subpath("../escape.gguf").is_err());
}

#[test]
fn rejects_absolute_and_empty_paths() {
    assert_eq!(
        sanitize_download_subpath("/etc/passwd").unwrap_err(),
        "Invalid model path from Hugging Face: /etc/passwd"
    );
    assert_eq!(
        sanitize_download_subpath("./").unwrap_err(),
        "Hugging Face returned an empty model path"
    );
    assert_eq!(sanitize_download_subpath("./a/./b").unwrap(), vec!["a".to_string(), "b".to_string()]);
    assert_eq!(sanitize_download_subpath("a//b/").unwrap(), vec!["a".to_string(), "b".to_string()]);
    assert_eq!(
        sanitize_download_subpath("a/../b").unwrap_err(),
        "Invalid model path from Hugging Face: a/../b"
    );
    assert_eq!(sanitize_download_subpath("").unwrap_err(), "Hugging Face returned an empty model path");
}

#[test]
fn tokens_are_trimmed_and_blank_ones_dropped() {
    assert_eq!(effective_token(Some("  hf_abc  ")).as_deref(), Some("hf_abc"));
    assert_eq!(effective_token(Some("   ")), None);
    assert_eq!(effective_token(None), None);
}

#[test]
fn printed_content_ranges_parse_back() {
    for (s, e, t) in [(0u64, 0u64, 1u64), (5, 99, 100), (7, u64::MAX, u64::MAX), (u64::MAX, u64::MAX, 0)] {
        assert_eq!(
            parse_content_range(&format!("bytes {s}-{e}/{t}")),
            Some(ParsedContentRange::Satisfied { start: s, end: e, total: Some(t) })
        );
        assert_eq!(
            parse_content_range(&format!("bytes {s}-{e}/*")),
            Some(ParsedContentRange::Satisfied { start: s, end: e, total: None })
        );
        assert_eq!(parse_content_range(&format!("bytes */{t}")), Some(ParsedContentRange::Unsatisfied { total: t }));
    }
}

#[test]
fn siblings_and_partial_files_extend_the_name() {
    assert_eq!(manifest_sibling("/data/download-jobs.json", ".next"), "/data/download-jobs.json.next");
    assert_eq!(manifest_sibling("jobs.json", ".bak"), "jobs.json.bak");
    assert_eq!(partial_path_for("/models/BF16/model.gguf"), "/models/BF16/model.gguf.part");
    assert_eq!(partial_path_for(""), ".part");
}

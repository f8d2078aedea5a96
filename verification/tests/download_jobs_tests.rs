use inference_bridge::download_jobs::{
    attempt_retry_error, check_download_claim, download_end, plan_response, resolve_restored_jobs,
    restore_job, restore_needs_cleanup, DestinationHolder, DownloadEnd, DownloadJob, ResponsePlan,
    RestoredJob,
};
use inference_bridge::downloads::{DownloadProgress, ParsedContentRange};

const DEST: &str = "/models/model.gguf";
const PARTIAL: &str = "/models/model.gguf.part";

fn fixture(status: &str) -> DownloadProgress {
    DownloadProgress {
        id: "https://huggingface.co/owner/repo/resolve/main/model.gguf".to_string(),
        filename: "model.gguf".to_string(),
        dest_path: Some(DEST.to_string()),
        partial_path: Some(PARTIAL.to_string()),
        supports_vision: Some(false),
        repo_id: Some("owner/repo".to_string()),
        downloaded_bytes: 0,
        total_bytes: 1_000,
        speed_bps: None,
        eta_seconds: None,
        resumable: false,
        attempt: 1,
        done: false,
        status: status.to_string(),
        error: None,
    }
}

fn job() -> DownloadJob {
    DownloadJob {
        id: "u".to_string(),
        filename: "m.gguf".to_string(),
        dest_path: DEST.to_string(),
        partial_path: PARTIAL.to_string(),
        supports_vision: None,
        repo_id: None,
    }
}

#[test]
fn interrupted_download_restores_from_actual_partial_length() {
    let restored = restore_job(fixture("Downloading"), DEST.to_string(), PARTIAL.to_string(), None, 321, None);
    assert_eq!(restored.status, "Interrupted");
    assert!(!restored.done);
    assert!(restored.resumable);
    assert_eq!(restored.downloaded_bytes, 321);
    assert_eq!(restored.total_bytes, 1_000);
}

#[test]
fn explicit_pause_stays_paused_after_restore() {
    let restored = restore_job(fixture("Paused"), DEST.to_string(), PARTIAL.to_string(), None, 100, None);
    assert_eq!(restored.status, "Paused");
    assert!(!restored.done);
}

#[test]
fn cancelled_restore_deletes_only_partial_and_never_relabels_existing_dest_completed() {
    assert!(restore_needs_cleanup("Cancelling", 7));
    assert!(!restore_needs_cleanup("Cancelling", 0));
    assert!(!restore_needs_cleanup("Paused", 7));
    let restored = restore_job(fixture("Cancelling"), DEST.to_string(), PARTIAL.to_string(), Some(14), 7, None);
    assert_eq!(restored.status, "Cancelled");
    assert!(restored.done);
    assert!(!restored.resumable);
    assert!(restored.dest_path.is_none());
    assert!(restored.partial_path.is_none());
    let stuck = restore_job(
        fixture("Cancelled"),
        DEST.to_string(),
        PARTIAL.to_string(),
        None,
        7,
        Some("access denied".to_string()),
    );
    assert_eq!(stuck.status, "Cleanup pending");
    assert!(!stuck.done);
    assert_eq!(
        stuck.error.as_deref(),
        Some("Could not discard partial /models/model.gguf.part: access denied. Cleanup will retry on next start.")
    );
}

#[test]
fn restore_completed_and_missing_files() {
    let done = restore_job(fixture("Downloading"), DEST.to_string(), PARTIAL.to_string(), Some(1_000), 0, None);
    assert_eq!(done.status, "Completed");
    assert!(done.done);
    assert!(done.partial_path.is_none());
    let mismatch = restore_job(fixture("Downloading"), DEST.to_string(), PARTIAL.to_string(), Some(10), 0, None);
    assert_eq!(mismatch.status, "Failed");
    let missing = restore_job(fixture("Completed"), DEST.to_string(), PARTIAL.to_string(), None, 0, None);
    assert_eq!(missing.error.as_deref(), Some("Completed file is missing from disk."));
    let pausing = restore_job(fixture("Pausing"), DEST.to_string(), PARTIAL.to_string(), None, 5, None);
    assert_eq!(pausing.status, "Paused");
}

#[test]
fn restore_disables_conflicting_owners_of_one_partial() {
    let first = restore_job(fixture("Downloading"), DEST.to_string(), PARTIAL.to_string(), None, 7, None);
    let mut second_src = fixture("Paused");
    second_src.id = "https://huggingface.co/other/repo/resolve/main/model.gguf".to_string();
    second_src.repo_id = Some("other/repo".to_string());
    let second = restore_job(second_src, DEST.to_string(), PARTIAL.to_string(), None, 7, None);
    let restored = resolve_restored_jobs(vec![
        RestoredJob { progress: first, dest_key: DEST.to_string(), dest_display: DEST.to_string() },
        RestoredJob { progress: second, dest_key: DEST.to_string(), dest_display: DEST.to_string() },
    ]);
    assert_eq!(restored.len(), 2);
    assert!(restored.iter().all(|job| job.status == "Failed" && job.done));
    assert_eq!(
        restored[0].error.as_deref(),
        Some("Multiple persisted sources target /models/model.gguf; reselect the intended Hub file.")
    );
}

#[test]
fn cleanup_pending_keeps_its_destination() {
    let mut pending = fixture("Cleanup pending");
    pending.id = "a".to_string();
    let mut running = fixture("Interrupted");
    running.id = "b".to_string();
    let restored = resolve_restored_jobs(vec![
        RestoredJob { progress: pending, dest_key: "k".to_string(), dest_display: "d".to_string() },
        RestoredJob { progress: running, dest_key: "k".to_string(), dest_display: "d".to_string() },
    ]);
    assert_eq!(restored[0].status, "Cleanup pending");
    assert_eq!(restored[1].status, "Failed");
}

#[test]
fn claims_are_exclusive() {
    let running = fixture("Downloading");
    assert_eq!(
        check_download_claim("x", false, Some(&running), &vec![], "k", DEST),
        Err("Download already in progress for model.gguf".to_string())
    );
    assert_eq!(
        check_download_claim("x", true, None, &vec![], "k", DEST),
        Err("Interrupted download state changed before auto-resume.".to_string())
    );
    let interrupted = fixture("Interrupted");
    assert_eq!(check_download_claim("x", true, Some(&interrupted), &vec![], "k", DEST), Ok(()));
    let holder = DestinationHolder {
        id: "other".to_string(),
        filename: "other.gguf".to_string(),
        done: true,
        resumable: true,
        partial_exists: true,
        dest_key: Some("k".to_string()),
    };
    assert_eq!(
        check_download_claim("x", false, None, &vec![holder.clone()], "k", DEST),
        Err("Another download (other.gguf) already owns destination /models/model.gguf".to_string())
    );
    let mut gone = holder.clone();
    gone.partial_exists = false;
    assert_eq!(check_download_claim("x", false, None, &vec![gone], "k", DEST), Ok(()));
    let mut same = holder;
    same.id = "x".to_string();
    assert_eq!(check_download_claim("x", false, None, &vec![same], "k", DEST), Ok(()));
}

#[test]
fn response_plans() {
    let unsat = Some(ParsedContentRange::Unsatisfied { total: 500 });
    assert_eq!(plan_response(500, 416, "416", "u", unsat, None, false), ResponsePlan::AlreadyComplete { total: 500 });
    assert_eq!(
        plan_response(400, 416, "416", "u", unsat, None, false),
        ResponsePlan::ResetPartial {
            reason: "Server rejected resume offset 400 with HTTP 416 (Some(Unsatisfied { total: 500 }))".to_string()
        }
    );
    assert_eq!(
        plan_response(400, 416, "416", "u", None, None, true),
        ResponsePlan::Fail { reason: "Server rejected resume offset 400 with HTTP 416 (None)".to_string() }
    );
    let bad = Some(ParsedContentRange::Satisfied { start: 1, end: 9, total: Some(10) });
    assert_eq!(
        plan_response(5, 206, "206 Partial Content", "u", bad, Some(9), false),
        ResponsePlan::ResetPartial {
            reason: "Server returned an invalid Content-Range for resume offset 5: Some(Satisfied { start: 1, end: 9, total: Some(10) })".to_string()
        }
    );
    let good = Some(ParsedContentRange::Satisfied { start: 5, end: 9, total: Some(10) });
    assert_eq!(
        plan_response(5, 206, "206 Partial Content", "u", good, Some(5), false),
        ResponsePlan::Stream { restart: false, resumed: true, downloaded: 5, total: 10 }
    );
    assert_eq!(
        plan_response(5, 200, "200 OK", "u", None, Some(10), false),
        ResponsePlan::Stream { restart: true, resumed: false, downloaded: 0, total: 10 }
    );
    assert_eq!(
        plan_response(0, 404, "404 Not Found", "https://x", None, None, false),
        ResponsePlan::RetryLater { reason: "Server returned HTTP 404 Not Found for https://x".to_string() }
    );
}

#[test]
fn attempt_and_job_endings() {
    assert_eq!(attempt_retry_error(false, 10, 10, None), None);
    assert_eq!(attempt_retry_error(false, 10, 0, None), None);
    assert_eq!(
        attempt_retry_error(false, 9, 10, Some("old".to_string())),
        Some(Some("Download size mismatch: 9 of 10 bytes".to_string()))
    );
    assert_eq!(attempt_retry_error(true, 9, 10, Some("net".to_string())), Some(Some("net".to_string())));
    assert_eq!(download_end(true, true, false, 0, 0, None), DownloadEnd::Paused);
    assert_eq!(download_end(true, false, true, 0, 0, None), DownloadEnd::Cancelled);
    assert_eq!(
        download_end(false, false, false, 0, 0, None),
        DownloadEnd::Failed("Download failed after retries".to_string())
    );
    assert_eq!(download_end(false, false, true, 10, 10, None), DownloadEnd::Completed);
}

#[test]
fn job_records() {
    let j = job();
    let start = j.initial_progress(300, Some(200));
    assert_eq!(start.status, "Resuming");
    assert_eq!(start.total_bytes, 300);
    assert!(start.resumable);
    let fresh = j.initial_progress(0, None);
    assert_eq!(fresh.status, "Starting");
    let running = j.running_progress(100, 1_100, 100, 2);
    assert_eq!(running.status, "Retrying");
    assert_eq!(running.eta_seconds, Some(10));
    let cancelled = j.stopped_progress(false, 50, 100);
    assert!(cancelled.done);
    assert_eq!(cancelled.downloaded_bytes, 0);
    assert!(cancelled.dest_path.is_none());
    let done = j.completed_progress(100, 100);
    assert_eq!(done.status, "Completed");
    assert!(done.partial_path.is_none());
}

#[test]
fn every_claimer_of_a_shared_destination_fails() {
    let mut jobs = Vec::new();
    for (i, key) in ["k", "other", "k", "k"].iter().enumerate() {
        let mut p = fixture("Interrupted");
        p.id = format!("job-{i}");
        jobs.push(RestoredJob { progress: p, dest_key: key.to_string(), dest_display: key.to_string() });
    }
    let restored = resolve_restored_jobs(jobs);
    assert_eq!(restored.len(), 4);
    for i in [0, 2, 3] {
        assert!(restored[i].done && restored[i].status == "Failed", "job {i}");
    }
    assert_eq!(restored[1].status, "Interrupted");
    assert!(!restored[1].done);
    assert_eq!(restored[1].id, "job-1");
}

#[test]
fn finished_jobs_do_not_claim_their_destination() {
    let mut done = fixture("Completed");
    done.id = "a".to_string();
    done.done = true;
    let mut running = fixture("Interrupted");
    running.id = "b".to_string();
    let restored = resolve_restored_jobs(vec![
        RestoredJob { progress: done, dest_key: "k".to_string(), dest_display: "k".to_string() },
        RestoredJob { progress: running, dest_key: "k".to_string(), dest_display: "k".to_string() },
    ]);
    assert_eq!(restored[0].status, "Completed");
    assert_eq!(restored[1].status, "Interrupted");
}

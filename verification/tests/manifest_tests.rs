use inference_bridge::download_jobs::{manifest_version_problem, newest_manifest, ManifestCandidate};

fn c(secs: u64, nanos: u32, priority: u8) -> ManifestCandidate {
    ManifestCandidate { modified_secs: secs, modified_nanos: nanos, priority }
}

#[test]
fn the_newest_manifest_wins() {
    assert_eq!(newest_manifest(&vec![]), None);
    assert_eq!(newest_manifest(&vec![c(10, 0, 2), c(12, 0, 3), c(11, 0, 1)]), Some(1));
    assert_eq!(newest_manifest(&vec![c(10, 5, 2), c(10, 4, 3)]), Some(0));
}

#[test]
fn priority_breaks_time_ties() {
    assert_eq!(newest_manifest(&vec![c(10, 0, 2), c(10, 0, 3), c(10, 0, 1)]), Some(1));
    assert_eq!(newest_manifest(&vec![c(7, 0, 1), c(7, 0, 1)]), Some(1));
}

#[test]
fn only_version_one_is_read() {
    assert_eq!(manifest_version_problem(1, "/a/download-jobs.json"), None);
    assert_eq!(
        manifest_version_problem(2, "/a/download-jobs.json"),
        Some("Unsupported download manifest version 2 in /a/download-jobs.json".to_string())
    );
}

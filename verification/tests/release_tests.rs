use inference_bridge::engine::download::{
    archive_progress_message, archive_progress_permille, archive_response, archive_shortfall, archive_total,
    crosses_progress_step, is_cuda_runtime_url, ArchiveResponse,
};
use inference_bridge::engine::download::{
    asset_pattern_for, file_is_locked, find_matching_asset, llama_build_number, release_is_newer,
    safe_download_name, select_cuda_runtime_asset, select_release_asset, select_update,
    server_binary_patterns, GithubAsset, GithubRelease, Platform, UpdateCheck,
};

#[test]
fn newer_llama_build_is_an_update() {
    assert!(release_is_newer(Some("b9968"), "b9983"));
}

#[test]
fn older_llama_build_is_not_an_update() {
    assert!(!release_is_newer(Some("b9983"), "b9968"));
}

#[test]
fn equal_llama_build_is_not_an_update() {
    assert!(!release_is_newer(Some("B9983"), "b9983"));
}

#[test]
fn missing_runtime_can_install_latest_build() {
    assert!(release_is_newer(None, "b9983"));
}

#[test]
fn windows_sharing_violation_is_treated_as_locked_file() {
    let error = std::io::Error::from_raw_os_error(32);

    assert!(file_is_locked(
        error.raw_os_error(),
        error.kind() == std::io::ErrorKind::PermissionDenied
    ));
}

#[test]
fn windows_lock_violation_is_treated_as_locked_file() {
    let error = std::io::Error::from_raw_os_error(33);

    assert!(file_is_locked(
        error.raw_os_error(),
        error.kind() == std::io::ErrorKind::PermissionDenied
    ));
}

#[test]
fn unrelated_io_errors_are_not_treated_as_locked_files() {
    let error = std::io::Error::new(std::io::ErrorKind::NotFound, "missing");

    assert!(!file_is_locked(
        error.raw_os_error(),
        error.kind() == std::io::ErrorKind::PermissionDenied
    ));
}

#[test]
fn permission_denied_counts_as_locked() {
    assert!(file_is_locked(None, true));
    assert!(!file_is_locked(Some(5), false));
}

#[test]
fn build_numbers_parse_only_build_tags() {
    assert_eq!(llama_build_number(" b4567 "), Some(4567));
    assert_eq!(llama_build_number("B12"), Some(12));
    assert_eq!(llama_build_number("b"), None);
    assert_eq!(llama_build_number("v1.2"), None);
    assert_eq!(llama_build_number("b12x"), None);
    assert_eq!(llama_build_number("b99999999999999999999999"), None);
}

#[test]
fn unknown_tag_formats_update_when_different() {
    assert!(release_is_newer(Some("nightly-1"), "nightly-2"));
    assert!(!release_is_newer(Some(" Nightly "), "nightly"));
}

#[test]
fn a_release_is_never_newer_than_itself() {
    for tag in ["b1", "B1", "custom", ""] {
        assert!(!release_is_newer(Some(tag), tag));
    }
}

#[test]
fn asset_patterns_follow_backend_and_platform() {
    assert_eq!(
        asset_pattern_for("cuda", Platform::WindowsX64),
        "llama-b*-bin-win-cuda|llama-b*-bin-win*x64"
    );
    assert_eq!(asset_pattern_for("cuda", Platform::Linux), "llama-b*-bin-ubuntu-x64");
    assert_eq!(asset_pattern_for("cpu", Platform::WindowsArm64), "llama-b*-bin-win-avx2-x64");
    assert_eq!(asset_pattern_for("avx2", Platform::MacOs), "llama-b*-bin-ubuntu-x64");
    assert_eq!(asset_pattern_for("auto", Platform::MacOs), "llama-b*-bin-macos-arm64");
    assert_eq!(server_binary_patterns(Platform::WindowsX64).len(), 3);
}

fn asset(name: &str, size: u64) -> GithubAsset {
    GithubAsset {
        name: name.to_string(),
        browser_download_url: format!("https://example.invalid/{name}"),
        size,
    }
}

#[test]
fn wildcard_matching_needs_an_archive_and_pieces_in_order() {
    let assets = vec![
        asset("llama-b5000-bin-win-cuda-12.4-x64.txt", 1),
        asset("llama-b5000-bin-win-cuda-12.4-x64.zip", 2),
        asset("llama-b5000-bin-ubuntu-x64.tar.gz", 3),
    ];
    assert_eq!(find_matching_asset(&assets, "llama-b*-bin-win-cuda"), Some(1));
    assert_eq!(find_matching_asset(&assets, "LLAMA-B*-BIN-UBUNTU-X64"), Some(2));
    assert_eq!(find_matching_asset(&assets, "x64*win"), None);
}

#[test]
fn release_selection_prefers_newer_releases_then_pattern_order() {
    let releases = vec![
        GithubRelease {
            tag_name: "b5001".to_string(),
            assets: vec![asset("llama-b5001-bin-macos-arm64.zip", 10)],
        },
        GithubRelease {
            tag_name: "b5000".to_string(),
            assets: vec![
                asset("llama-b5000-bin-win-avx2-x64.zip", 20),
                asset("llama-b5000-bin-win-cuda-x64.zip", 30),
                asset("cudart-llama-bin-win-cuda-12.4-x64.zip", 40),
            ],
        },
    ];
    let chosen = select_release_asset(&releases, "llama-b*-bin-win-cuda | llama-b*-bin-win*x64").unwrap();
    assert_eq!(chosen.0, "b5000");
    assert_eq!(chosen.2, 30);
    let cudart = select_cuda_runtime_asset(&releases).unwrap();
    assert_eq!(cudart.2, 40);
    assert!(select_release_asset(&releases, "nothing*here").is_none());

    match select_update(&releases, Some("b4999"), Platform::WindowsX64) {
        UpdateCheck::Available { tag, size, .. } => {
            assert_eq!(tag, "b5000");
            assert_eq!(size, 30);
        }
        other => panic!("unexpected {other:?}"),
    }
    assert!(matches!(
        select_update(&releases, Some("b5001"), Platform::WindowsX64),
        UpdateCheck::UpToDate
    ));
    assert!(matches!(
        select_update(&releases, None, Platform::Linux),
        UpdateCheck::NoCompatible
    ));
}

#[test]
fn download_names_are_file_system_safe() {
    assert_eq!(
        safe_download_name("https://github.com/x/y/releases/download/b1/llama b1 win.zip", "b1"),
        "b1-llama_b1_win.zip"
    );
    assert_eq!(safe_download_name("https://example.invalid/", "b2"), "b2-llama-server.zip");
    let long = format!("https://example.invalid/{}", "a".repeat(400));
    assert_eq!(safe_download_name(&long, "b3").len(), 180);
}

#[test]
fn runtime_archive_download_decisions() {
    assert_eq!(archive_response(10, 200, "200 OK", "u"), ArchiveResponse::Restart);
    assert_eq!(archive_response(10, 206, "206 Partial Content", "u"), ArchiveResponse::Stream);
    assert_eq!(archive_response(0, 200, "200 OK", "u"), ArchiveResponse::Stream);
    assert_eq!(
        archive_response(0, 404, "404 Not Found", "https://x/a.zip"),
        ArchiveResponse::RetryLater("Download failed with status: 404 Not Found (url: https://x/a.zip)".to_string())
    );
    assert_eq!(archive_total(206, 100, 60, 30, Some(30)), 100);
    assert_eq!(archive_total(206, 50, 60, 30, Some(30)), 90);
    assert_eq!(archive_total(200, 50, 0, 0, Some(70)), 70);
    assert_eq!(archive_total(200, 50, 0, 0, None), 50);
    assert_eq!(
        archive_progress_message("b5000", 3 * 1048576 + 5, 10 * 1048576),
        "Downloading llama-server (b5000)... 3/10 MB"
    );
    assert!(crosses_progress_step(2097152 + 10, 100));
    assert!(!crosses_progress_step(2097152 + 200, 100));
    assert_eq!(archive_progress_permille(50, 100), 400);
    assert_eq!(archive_progress_permille(150, 100), 800);
    assert_eq!(archive_progress_permille(5, 0), 0);
    assert_eq!(archive_shortfall(5, 10), Some("Download incomplete: 5 of 10 bytes".to_string()));
    assert_eq!(archive_shortfall(10, 10), None);
    assert!(is_cuda_runtime_url("https://x/CUDART-llama-bin-win-cuda-12.4-x64.zip"));
    assert!(!is_cuda_runtime_url("https://x/llama-bin-win-cuda-12.4-x64.zip"));
}

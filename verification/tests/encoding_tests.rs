use inference_bridge::debug::{route_debug_request, DebugRoute};
use inference_bridge::encoding::{percent_decode_lossy, png_data_url};
use inference_bridge::engine::download::{
    archive_entry_target, detect_top_level_dir, is_server_binary_name, looks_like_zip,
};
use inference_bridge::image_job::check_generated_image;

#[test]
fn percent_decoding() {
    assert_eq!(percent_decode_lossy("foo%20bar%3f"), "foo bar?");
    assert_eq!(percent_decode_lossy("100%"), "100%");
    assert_eq!(percent_decode_lossy("%zz"), "%zz");
    assert_eq!(percent_decode_lossy("%E2%82%AC"), "\u{20ac}");
    assert_eq!(percent_decode_lossy("%FF"), "\u{fffd}");
    assert_eq!(
        route_debug_request("GET", "/v1/models/Qwen%203.gguf"),
        DebugRoute::Model("Qwen 3.gguf".to_string())
    );
}

#[test]
fn base64_data_urls() {
    assert_eq!(png_data_url(b""), "data:image/png;base64,");
    assert_eq!(png_data_url(b"f"), "data:image/png;base64,Zg==");
    assert_eq!(png_data_url(b"fo"), "data:image/png;base64,Zm8=");
    assert_eq!(png_data_url(b"foobar"), "data:image/png;base64,Zm9vYmFy");
    assert_eq!(png_data_url(&[0xfb, 0xff]), "data:image/png;base64,+/8=");
}

#[test]
fn generated_image_display_checks() {
    assert_eq!(check_generated_image(true, Some("PNG"), 10), Ok(()));
    assert_eq!(
        check_generated_image(false, Some("png"), 10),
        Err("Generated image path is outside the configured image folder".to_string())
    );
    assert_eq!(
        check_generated_image(true, Some("jpg"), 10),
        Err("Generated image path is outside the configured image folder".to_string())
    );
    assert_eq!(
        check_generated_image(true, Some("png"), 50 * 1024 * 1024 + 1),
        Err("Generated image exceeds the 50 MiB display limit".to_string())
    );
}

#[test]
fn archive_layout() {
    assert!(looks_like_zip(b"PK\x03\x04"));
    assert!(!looks_like_zip(b"<htm"));
    let wrapped = vec![Some("llama-b1/".to_string()), Some("llama-b1/llama-server.exe".to_string()), Some("llama-b1".to_string())];
    assert_eq!(detect_top_level_dir(&wrapped), 1);
    let flat = vec![Some("llama-server.exe".to_string()), Some("ggml.dll".to_string())];
    assert_eq!(detect_top_level_dir(&flat), 0);
    let mixed = vec![Some("a/x".to_string()), None, Some("b/y".to_string())];
    assert_eq!(detect_top_level_dir(&mixed), 0);
    let unreadable_first = vec![None, Some("a/x".to_string())];
    assert_eq!(detect_top_level_dir(&unreadable_first), 0);
    assert_eq!(detect_top_level_dir(&vec![]), 0);
    assert_eq!(archive_entry_target("llama-b1/bin/llama-server.exe", 1), Some("bin/llama-server.exe".to_string()));
    assert_eq!(archive_entry_target("llama-b1/", 1), None);
    assert_eq!(archive_entry_target("../evil.dll", 0), None);
    assert_eq!(archive_entry_target("a/b", 5), None);
    assert!(is_server_binary_name("LLAMA-SERVER.EXE"));
    assert!(!is_server_binary_name("llama-cli.exe"));
}

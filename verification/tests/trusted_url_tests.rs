use inference_bridge::downloads::trusted_hugging_face_download_url;

#[test]
fn only_hugging_face_over_https_is_trusted() {
    assert!(trusted_hugging_face_download_url(
        "https://huggingface.co/unsloth/Qwen3-8B-GGUF/resolve/main/Qwen3-8B-Q4_K_M.gguf"
    ));
    assert!(trusted_hugging_face_download_url("HTTPS://www.HuggingFace.co/a/b"));
    assert!(!trusted_hugging_face_download_url("http://huggingface.co/a/b"));
    assert!(!trusted_hugging_face_download_url("https://huggingface.co.evil.example/a"));
    assert!(!trusted_hugging_face_download_url("https://cdn-lfs.huggingface.co/a"));
    assert!(!trusted_hugging_face_download_url("huggingface.co/a/b"));
    assert!(!trusted_hugging_face_download_url(""));
}

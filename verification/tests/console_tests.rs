use inference_bridge::config::{ModelsConfig, ProvidersConfig, UiConfig};
use inference_bridge::debug::{route_debug_request, DebugRoute};
use inference_bridge::engine::download::Platform;
use inference_bridge::settings::{
    api_access_info, api_restart_plan, api_settings_changed, choose_active_provider,
    diffusion_kv_cache_mode, download_build_pattern, non_blank_key, runtime_pack_catalog,
    runtime_pack_info, trimmed_args, trimmed_setting,
};

#[test]
fn console_routes() {
    assert_eq!(route_debug_request("get", " /v1/health "), DebugRoute::Health);
    assert_eq!(route_debug_request("POST", "/v1/models/stats"), DebugRoute::ModelStatsFor);
    assert_eq!(
        route_debug_request("GET", "/v1/debug/profile?x=1&model=a%20b"),
        DebugRoute::DebugProfile(Some("a b".to_string()))
    );
    assert_eq!(route_debug_request("GET", "/v1/debug/profile"), DebugRoute::DebugProfile(None));
    assert_eq!(route_debug_request("GET", "/v1/models/qwen.gguf"), DebugRoute::Model("qwen.gguf".to_string()));
    assert_eq!(route_debug_request("GET", "/v1/models/a/b"), DebugRoute::NotFound);
    assert_eq!(route_debug_request("DELETE", "/v1/health"), DebugRoute::NotFound);
}

#[test]
fn config_defaults() {
    assert!(ModelsConfig::default().scan_dirs.is_empty());
    let providers = ProvidersConfig::default();
    assert_eq!(providers.active, "managed_llamacpp");
    assert_eq!(providers.lm_studio.base_url, "http://127.0.0.1:1234/v1");
    assert_eq!(UiConfig::default().theme, "dark");
}

#[test]
fn api_addresses() {
    let info = api_access_info("0.0.0.0", 8800, Some("192.168.1.5"));
    assert_eq!(info.loopback_url, "http://127.0.0.1:8800/v1");
    assert_eq!(info.lan_url.as_deref(), Some("http://192.168.1.5:8800/v1"));
    assert_eq!(api_access_info("h", 1, None).lan_url, None);
}

#[test]
fn runtime_packs() {
    assert_eq!(runtime_pack_catalog().len(), 2);
    let ok = runtime_pack_info("cuda", "n", "d", Some("b1"), Ok(("b2".to_string(), 5)));
    assert!(ok.available && ok.update_available);
    let err = runtime_pack_info("cpu", "n", "d", None, Err("offline".to_string()));
    assert!(!err.available && !err.update_available);
    assert_eq!(err.error.as_deref(), Some("offline"));
    assert_eq!(download_build_pattern("CUDA", Platform::Linux).unwrap(), "llama-b*-bin-ubuntu-x64");
    assert_eq!(
        download_build_pattern("rocm", Platform::Linux).unwrap_err(),
        "Unknown backend: rocm. Use 'cuda' or 'cpu'."
    );
}

#[test]
fn edited_settings_are_normalised() {
    assert_eq!(choose_active_provider(" lm_studio ", true, false, false), "lm_studio");
    assert_eq!(choose_active_provider("lm_studio", false, false, false), "managed_llamacpp");
    assert_eq!(non_blank_key(Some(" k ".to_string())).as_deref(), Some(" k "));
    assert_eq!(non_blank_key(Some("  ".to_string())), None);
    assert_eq!(trimmed_setting(Some(" x ".to_string())).as_deref(), Some("x"));
    assert_eq!(
        trimmed_args(&[" -a ".to_string(), "  ".to_string(), "b".to_string()]),
        vec!["-a".to_string(), "b".to_string()]
    );
    assert_eq!(diffusion_kv_cache_mode(" ON "), "on");
    assert_eq!(diffusion_kv_cache_mode("maybe"), "auto");
    assert_eq!(api_restart_plan(true, false, true, false), (true, false));
    assert_eq!(api_restart_plan(false, true, false, false), (false, true));
    assert!(api_settings_changed("a", "a", 1, 1, Some("k"), None));
    assert!(!api_settings_changed("a", "a", 1, 1, None, None));
}

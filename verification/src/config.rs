//! Configuration sections and their defaults.

use vstd::prelude::*;
use crate::engine::launch::DecimalSetting;

verus! {

broadcast use vstd::string::group_string_axioms;

/// Where models are looked for.
#[derive(Clone, Debug)]
pub struct ModelsConfig {
    /// Directories scanned for `.gguf` files.
    pub scan_dirs: Vec<String>,
}

impl Default for ModelsConfig {
    /// No directories; they are detected at startup when none are set.
    fn default() -> (c: Self)
        ensures
            c.scan_dirs@.len() == 0,
    {
        ModelsConfig { scan_dirs: Vec::new() }
    }
}

/// An OpenAI-compatible server run by another application.
#[derive(Clone, Debug)]
pub struct ExternalProviderConfig {
    pub enabled: bool,
    /// Base URL, normally ending in `/v1`.
    pub base_url: String,
    pub api_key: Option<String>,
}

impl Default for ExternalProviderConfig {
    /// Disabled, with no URL and no key.
    fn default() -> (c: Self)
        ensures
            !c.enabled,
            c.base_url@.len() == 0,
            c.api_key is None,
    {
        ExternalProviderConfig { enabled: false, base_url: String::new(), api_key: None }
    }
}

/// Which runtime serves requests.
#[derive(Clone, Debug)]
pub struct ProvidersConfig {
    /// `managed_llamacpp` or `lm_studio`.
    pub active: String,
    pub lm_studio: ExternalProviderConfig,
}

impl Default for ProvidersConfig {
    /// The managed llama.cpp runtime, with LM Studio known at its usual local
    /// address but disabled.
    fn default() -> (c: Self)
        ensures
            c.active@ == "managed_llamacpp"@,
            !c.lm_studio.enabled,
            c.lm_studio.base_url@ == "http://127.0.0.1:1234/v1"@,
            c.lm_studio.api_key is None,
    {
        ProvidersConfig {
            active: "managed_llamacpp".to_string(),
            lm_studio: ExternalProviderConfig {
                enabled: false,
                base_url: "http://127.0.0.1:1234/v1".to_string(),
                api_key: None,
            },
        }
    }
}

/// User interface preferences.
#[derive(Clone, Debug)]
pub struct UiConfig {
    pub theme: String,
}

impl Default for UiConfig {
    /// The dark theme.
    fn default() -> (c: Self)
        ensures
            c.theme@ == "dark"@,
    {
        UiConfig { theme: "dark".to_string() }
    }
}

/// How llama-server is launched and supervised. Decimal settings hold
/// their sign and the text they are launched with.
#[derive(Clone, Debug)]
pub struct ProcessConfig {
    pub llama_server_path: String,
    /// `-1` offloads every layer.
    pub gpu_layers: i32,
    pub threads: u32,
    pub threads_batch: u32,
    pub kill_on_exit: bool,
    pub backend_preference: String,
    pub batch_size: u32,
    pub ubatch_size: u32,
    pub flash_attn: bool,
    pub use_mmap: bool,
    pub use_mlock: bool,
    pub cont_batching: bool,
    pub parallel_slots: u32,
    pub main_gpu: i32,
    /// Launched with four decimals.
    pub defrag_thold: DecimalSetting,
    /// Launched with six decimals.
    pub rope_freq_scale: DecimalSetting,
    pub fit_mode: String,
    pub cache_ram_mb: Option<u32>,
    pub ctxcp: Option<u32>,
    pub use_jinja: bool,
    pub reasoning_mode: String,
    pub template_mode: String,
    pub template_name: Option<String>,
    pub custom_template_path: Option<String>,
    pub chat_template_kwargs_json: Option<String>,
    pub cache_type_k: String,
    pub cache_type_v: String,
    pub kv_unified: bool,
    pub no_warmup: bool,
    pub ctx_shift: bool,
    /// Each ratio as launched.
    pub tensor_split: Vec<String>,
    pub draft_model_path: String,
    pub spec_type: String,
    pub spec_draft_n_max: u32,
    pub draft_max_tokens: u32,
    pub draft_min_tokens: u32,
    /// Launched with four decimals.
    pub draft_p_min: DecimalSetting,
    pub extra_args: Vec<String>,
    pub model_load_timeout_secs: u64,
    pub first_token_timeout_secs: u64,
    pub inter_token_timeout_secs: u64,
    pub health_poll_interval_ms: u64,
}

impl Default for ProcessConfig {
    /// Full offload, automatic threads and batches, flash attention, memory
    /// mapping and continuous batching on, one slot, a defragmentation
    /// threshold of 0.1, repository templates, a q8_0 KV cache with a
    /// unified buffer, five minutes to load, five to the first token, two
    /// between tokens, and health polls every 150 ms.
    fn default() -> (c: Self)
        ensures
            c.llama_server_path@.len() == 0,
            c.gpu_layers == -1,
            c.threads == 0 && c.threads_batch == 0,
            c.kill_on_exit,
            c.backend_preference@ == "auto"@,
            c.batch_size == 0 && c.ubatch_size == 0,
            c.flash_attn && c.use_mmap && !c.use_mlock && c.cont_batching,
            c.parallel_slots == 1,
            c.main_gpu == 0,
            c.defrag_thold.positive && !c.defrag_thold.negative && c.defrag_thold.text@ == "0.1000"@,
            !c.rope_freq_scale.positive && !c.rope_freq_scale.negative && c.rope_freq_scale.text@ == "0.000000"@,
            c.fit_mode@.len() == 0,
            c.cache_ram_mb is None && c.ctxcp is None,
            !c.use_jinja,
            c.reasoning_mode@.len() == 0,
            c.template_mode@ == "repo"@,
            c.template_name is None && c.custom_template_path is None && c.chat_template_kwargs_json is None,
            c.cache_type_k@ == "q8_0"@ && c.cache_type_v@ == "q8_0"@,
            c.kv_unified && !c.no_warmup && !c.ctx_shift,
            c.tensor_split@.len() == 0,
            c.draft_model_path@.len() == 0 && c.spec_type@.len() == 0,
            c.spec_draft_n_max == 0 && c.draft_max_tokens == 0 && c.draft_min_tokens == 0,
            !c.draft_p_min.positive && !c.draft_p_min.negative && c.draft_p_min.text@ == "0.0000"@,
            c.extra_args@.len() == 0,
            c.model_load_timeout_secs == 300,
            c.first_token_timeout_secs == 300,
            c.inter_token_timeout_secs == 120,
            c.health_poll_interval_ms == 150,
    {
        let c = ProcessConfig {
            llama_server_path: String::new(),
            gpu_layers: -1,
            threads: 0,
            threads_batch: 0,
            kill_on_exit: true,
            backend_preference: "auto".to_string(),
            batch_size: 0,
            ubatch_size: 0,
            flash_attn: true,
            use_mmap: true,
            use_mlock: false,
            cont_batching: true,
            parallel_slots: 1,
            main_gpu: 0,
            defrag_thold: DecimalSetting { negative: false, positive: true, text: "0.1000".to_string() },
            rope_freq_scale: DecimalSetting { negative: false, positive: false, text: "0.000000".to_string() },
            fit_mode: String::new(),
            cache_ram_mb: None,
            ctxcp: None,
            use_jinja: false,
            reasoning_mode: String::new(),
            template_mode: "repo".to_string(),
            template_name: None,
            custom_template_path: None,
            chat_template_kwargs_json: None,
            cache_type_k: "q8_0".to_string(),
            cache_type_v: "q8_0".to_string(),
            kv_unified: true,
            no_warmup: false,
            ctx_shift: false,
            tensor_split: Vec::new(),
            draft_model_path: String::new(),
            spec_type: String::new(),
            spec_draft_n_max: 0,
            draft_max_tokens: 0,
            draft_min_tokens: 0,
            draft_p_min: DecimalSetting { negative: false, positive: false, text: "0.0000".to_string() },
            extra_args: Vec::new(),
            model_load_timeout_secs: 300,
            first_token_timeout_secs: 300,
            inter_token_timeout_secs: 120,
            health_poll_interval_ms: 150,
        };
        proof {
            reveal_strlit("");
        }
        c
    }
}

} // verus!

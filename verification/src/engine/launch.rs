//! The command line a model is launched with.
//!
//! From the launch settings, the located binaries and the normalised chat
//! template arguments, this module builds the exact argument list of
//! llama-server (or of llama-diffusion-cli for diffusion models) and checks
//! the settings before a launch. Decimal settings arrive already rendered
//! as text with their sign, since the launch only prints them.

use vstd::prelude::*;
use crate::hub::clone_opt_string;
use crate::text::{chars_equal, chars_of, decimal, decimal_chars, join_chars, join_with, string_of, trim, trim_str};

verus! {

broadcast use vstd::string::group_string_axioms;

pub open spec fn opt_view(o: Option<String>) -> Option<Seq<char>> {
    match o {
        Some(s) => Some(s@),
        None => None,
    }
}

pub open spec fn strings_view(v: Seq<String>) -> Seq<Seq<char>> {
    v.map_values(|s: String| s@)
}

/// A decimal setting as the launch uses it: its sign and its text as it is
/// printed on the command line.
#[derive(Clone, Debug)]
pub struct DecimalSetting {
    pub negative: bool,
    pub positive: bool,
    pub text: String,
}

/// Everything a model launch is configured with.
#[derive(Clone, Debug)]
pub struct LaunchConfig {
    pub model_path: String,
    pub hf_repo: Option<String>,
    pub hf_file: Option<String>,
    /// `None`: the model's own context window.
    pub context_size: Option<u32>,
    pub gpu_layers: i32,
    pub threads: u32,
    pub threads_batch: u32,
    pub port: u16,
    pub backend_preference: String,
    pub batch_size: u32,
    pub ubatch_size: u32,
    pub flash_attn: bool,
    pub use_mmap: bool,
    pub use_mlock: bool,
    pub cont_batching: bool,
    pub parallel_slots: u32,
    pub main_gpu: i32,
    /// Printed with four decimals.
    pub defrag_thold: DecimalSetting,
    /// Printed with six decimals.
    pub rope_freq_scale: DecimalSetting,
    pub fit_mode: Option<String>,
    pub cache_ram_mb: Option<u32>,
    pub ctxcp: Option<u32>,
    pub use_jinja: bool,
    pub reasoning_mode: Option<String>,
    pub reasoning_preserve: bool,
    pub template_mode: String,
    pub template_source: Option<String>,
    pub template_file: Option<String>,
    pub template_name: Option<String>,
    pub chat_template_kwargs_json: Option<String>,
    pub extra_args: Vec<String>,
    pub cache_type_k: String,
    pub cache_type_v: String,
    pub kv_unified: bool,
    pub no_warmup: bool,
    pub ctx_shift: bool,
    /// Each ratio as printed.
    pub tensor_split: Vec<String>,
    /// Empty: no separate draft model.
    pub draft_model_path: String,
    pub spec_type: String,
    pub spec_draft_n_max: u32,
    pub draft_max_tokens: u32,
    pub draft_min_tokens: u32,
    /// Printed with four decimals.
    pub draft_p_min: DecimalSetting,
    pub diffusion_n_predict: u32,
    pub diffusion_kv_cache: String,
    pub diffusion_visual: bool,
    pub diffusion_extra_args: Vec<String>,
    pub attach_mmproj: bool,
}

/// What a launch will run.
#[derive(Clone, Debug)]
pub struct LaunchPreview {
    pub runtime: String,
    pub server_path: String,
    pub model_path: String,
    pub hf_repo: Option<String>,
    pub hf_file: Option<String>,
    pub mmproj_path: Option<String>,
    pub backend_preference: String,
    pub context_size: Option<u32>,
    pub port: u16,
    pub parallel_slots: u32,
    pub fit_mode: Option<String>,
    pub cache_ram_mb: Option<u32>,
    pub ctxcp: Option<u32>,
    pub use_jinja: bool,
    pub reasoning_mode: Option<String>,
    pub reasoning_preserve: bool,
    pub template_mode: String,
    pub template_source: Option<String>,
    pub template_path: Option<String>,
    pub template_name: Option<String>,
    pub chat_template_kwargs_json: Option<String>,
    pub draft_model_path: String,
    pub spec_type: String,
    pub spec_draft_n_max: u32,
    pub draft_max_tokens: u32,
    pub draft_min_tokens: u32,
    /// The draft acceptance threshold as printed with four decimals.
    pub draft_p_min: String,
    pub args: Vec<String>,
}

// ---------------------------------------------------------------------------
// Checks before a launch
// ---------------------------------------------------------------------------

/// Why a launch is refused, checked in this order; `None` when it may go.
pub open spec fn launch_problem(c: LaunchConfig, model_exists: bool, draft_exists: bool, draft_is_file: bool) -> Option<Seq<char>> {
    let repo_blank = match c.hf_repo {
        Some(r) => trim(r@).len() == 0,
        None => true,
    };
    let draft = trim(c.draft_model_path@);
    if repo_blank && !model_exists {
        Some("Model file does not exist: "@ + c.model_path@)
    } else if trim(c.spec_type@) == "draft-dflash"@ && draft.len() == 0 {
        Some("DFlash speculative decoding requires a draft model path (-md)"@)
    } else if draft.len() > 0 && !draft_exists {
        Some("Draft model file does not exist: "@ + draft)
    } else if draft.len() > 0 && !draft_is_file {
        Some("Draft model path is not a file: "@ + draft)
    } else if c.context_size == Some(0u32) {
        Some("Context size must be greater than 0 when specified"@)
    } else if c.parallel_slots == 0 {
        Some("Parallel slots must be at least 1"@)
    } else if c.main_gpu < 0 {
        Some("Main GPU index cannot be negative"@)
    } else if c.defrag_thold.negative {
        Some("Defrag threshold cannot be negative"@)
    } else if c.rope_freq_scale.negative {
        Some("RoPE frequency scale cannot be negative"@)
    } else if c.cache_ram_mb == Some(0u32) {
        Some("cache_ram_mb must be greater than 0 when specified"@)
    } else if c.ctxcp == Some(0u32) {
        Some("ctxcp must be greater than 0 when specified"@)
    } else {
        None
    }
}

fn concat2(a: &str, b: &[char]) -> (r: String)
    ensures
        r@ == a@ + b@,
{
    let mut v = chars_of(a);
    let ghost v0 = v@;
    let mut i: usize = 0;
    while i < b.len()
        invariant
            i <= b.len(),
            v@ == v0 + b@.take(i as int),
        decreases b.len() - i,
    {
        v.push(b[i]);
        i += 1;
        assert(v@ =~= v0 + b@.take(i as int));
    }
    assert(b@.take(i as int) =~= b@);
    string_of(&v)
}

/// Check the settings before a launch, given whether the model file and the
/// draft model exist (the draft's path is checked as trimmed).
pub fn validate_launch_config(config: &LaunchConfig, model_exists: bool, draft_exists: bool, draft_is_file: bool) -> (r: Result<(), String>)
    ensures
        match launch_problem(*config, model_exists, draft_exists, draft_is_file) {
            Some(m) => r matches Err(e) && e@ == m,
            None => r is Ok,
        },
{
    let repo_blank = match &config.hf_repo {
        Some(r) => trim_str(r.as_str()).len() == 0,
        None => true,
    };
    if repo_blank && !model_exists {
        return Err(concat2("Model file does not exist: ", &chars_of(config.model_path.as_str())));
    }
    let draft = trim_str(config.draft_model_path.as_str());
    if chars_equal(&trim_str(config.spec_type.as_str()), &chars_of("draft-dflash")) && draft.len() == 0 {
        return Err("DFlash speculative decoding requires a draft model path (-md)".to_string());
    }
    if draft.len() > 0 && !draft_exists {
        return Err(concat2("Draft model file does not exist: ", &draft));
    }
    if draft.len() > 0 && !draft_is_file {
        return Err(concat2("Draft model path is not a file: ", &draft));
    }
    if config.context_size == Some(0u32) {
        return Err("Context size must be greater than 0 when specified".to_string());
    }
    if config.parallel_slots == 0 {
        return Err("Parallel slots must be at least 1".to_string());
    }
    if config.main_gpu < 0 {
        return Err("Main GPU index cannot be negative".to_string());
    }
    if config.defrag_thold.negative {
        return Err("Defrag threshold cannot be negative".to_string());
    }
    if config.rope_freq_scale.negative {
        return Err("RoPE frequency scale cannot be negative".to_string());
    }
    if config.cache_ram_mb == Some(0u32) {
        return Err("cache_ram_mb must be greater than 0 when specified".to_string());
    }
    if config.ctxcp == Some(0u32) {
        return Err("ctxcp must be greater than 0 when specified".to_string());
    }
    Ok(())
}

// ---------------------------------------------------------------------------
// llama-server arguments
// ---------------------------------------------------------------------------

/// Decimal text of a signed number.
pub open spec fn signed_text(i: int) -> Seq<char> {
    if i < 0 {
        seq!['-'] + decimal((-i) as nat)
    } else {
        decimal(i as nat)
    }
}

fn signed_text_exec(i: i32) -> (r: Vec<char>)
    ensures
        r@ == signed_text(i as int),
{
    if i < 0 {
        let m: u64 = (-(i as i64)) as u64;
        let d = decimal_chars(m);
        let mut r: Vec<char> = vec!['-'];
        let mut k: usize = 0;
        while k < d.len()
            invariant
                k <= d.len(),
                r@ == seq!['-'] + d@.take(k as int),
            decreases d.len() - k,
        {
            r.push(d[k]);
            k += 1;
            assert(r@ =~= seq!['-'] + d@.take(k as int));
        }
        assert(d@.take(k as int) =~= d@);
        r
    } else {
        decimal_chars(i as u64)
    }
}

pub open spec fn flag(b: bool, f: Seq<char>) -> Seq<Seq<char>> {
    if b { seq![f] } else { seq![] }
}

pub open spec fn pair_if(b: bool, f: Seq<char>, v: Seq<char>) -> Seq<Seq<char>> {
    if b { seq![f, v] } else { seq![] }
}

/// A text setting given and not blank.
pub open spec fn given(o: Option<String>) -> bool {
    match o {
        Some(s) => trim(s@).len() > 0,
        None => false,
    }
}

pub open spec fn text_of(o: Option<String>) -> Seq<char> {
    match o {
        Some(s) => s@,
        None => Seq::<char>::empty(),
    }
}

/// The model source: a Hugging Face reference (`repo` or `repo:file`) when
/// a repository is given, the local model path otherwise.
pub open spec fn source_args(c: LaunchConfig) -> Seq<Seq<char>> {
    if given(c.hf_repo) {
        let r = text_of(c.hf_repo);
        seq!["-hf"@, if given(c.hf_file) { r + ":"@ + text_of(c.hf_file) } else { r }]
    } else {
        seq!["--model"@, c.model_path@]
    }
}

/// Port, parallel slots (at least one) and the slot endpoint.
pub open spec fn slot_args(c: LaunchConfig) -> Seq<Seq<char>> {
    seq![
        "--port"@,
        decimal(c.port as nat),
        "--parallel"@,
        decimal(if c.parallel_slots >= 1 { c.parallel_slots as nat } else { 1 }),
        "--slots"@,
    ]
}

/// Context, projector, fit and prompt-cache arguments.
pub open spec fn context_args(c: LaunchConfig, mmproj: Option<Seq<char>>) -> Seq<Seq<char>> {
    pair_if(c.context_size is Some, "--ctx-size"@, decimal(c.context_size->0 as nat))
        + pair_if(mmproj is Some, "--mmproj"@, mmproj->0)
        + pair_if(given(c.fit_mode), "--fit"@, text_of(c.fit_mode))
        + pair_if(c.cache_ram_mb is Some, "--cache-ram"@, decimal(c.cache_ram_mb->0 as nat))
        + pair_if(c.ctxcp is Some, "-ctxcp"@, decimal(c.ctxcp->0 as nat))
}

/// Chat template and reasoning arguments.
pub open spec fn template_args(c: LaunchConfig, kwargs: Option<Seq<char>>) -> Seq<Seq<char>> {
    flag(c.use_jinja, "--jinja"@)
        + pair_if(given(c.reasoning_mode), "--reasoning"@, text_of(c.reasoning_mode))
        + flag(c.reasoning_preserve, "--reasoning-preserve"@)
        + pair_if(given(c.template_name), "--chat-template"@, text_of(c.template_name))
        + pair_if(c.template_file is Some, "--chat-template-file"@, text_of(c.template_file))
        + pair_if(
        kwargs is Some && trim(kwargs->0).len() > 0,
        "--chat-template-kwargs"@,
        kwargs->0,
    )
}

/// Context, projector, fit, cache, template and reasoning arguments.
pub open spec fn model_args(c: LaunchConfig, mmproj: Option<Seq<char>>, kwargs: Option<Seq<char>>) -> Seq<Seq<char>> {
    context_args(c, mmproj) + template_args(c, kwargs)
}

/// Offload, threading and batching arguments.
pub open spec fn sizing_args(c: LaunchConfig) -> Seq<Seq<char>> {
    pair_if(c.gpu_layers != 0, "--n-gpu-layers"@, if c.gpu_layers < 0 { "999"@ } else { signed_text(c.gpu_layers as int) })
        + pair_if(c.threads > 0, "--threads"@, decimal(c.threads as nat))
        + pair_if(c.threads_batch > 0, "--threads-batch"@, decimal(c.threads_batch as nat))
        + pair_if(c.batch_size > 0, "--batch-size"@, decimal(c.batch_size as nat))
        + pair_if(c.ubatch_size > 0, "--ubatch-size"@, decimal(c.ubatch_size as nat))
}

/// Attention, memory-mapping, batching and RoPE switches.
pub open spec fn tuning_args(c: LaunchConfig) -> Seq<Seq<char>> {
    pair_if(c.flash_attn, "--flash-attn"@, "on"@)
        + flag(!c.use_mmap, "--no-mmap"@)
        + flag(c.use_mlock, "--mlock"@)
        + flag(c.cont_batching, "--cont-batching"@)
        + pair_if(c.main_gpu != 0, "--main-gpu"@, signed_text(c.main_gpu as int))
        + pair_if(c.defrag_thold.positive, "--defrag-thold"@, c.defrag_thold.text@)
        + pair_if(c.rope_freq_scale.positive, "--rope-freq-scale"@, c.rope_freq_scale.text@)
}

/// KV-cache, warmup, context-shift and tensor-split arguments.
pub open spec fn cache_args(c: LaunchConfig) -> Seq<Seq<char>> {
    pair_if(c.cache_type_k@.len() > 0, "--cache-type-k"@, c.cache_type_k@)
        + pair_if(c.cache_type_v@.len() > 0, "--cache-type-v"@, c.cache_type_v@)
        + flag(c.kv_unified, "--kv-unified"@)
        + flag(c.no_warmup, "--no-warmup"@)
        + flag(c.ctx_shift, "--ctx-shift"@)
        + pair_if(c.tensor_split@.len() > 0, "--tensor-split"@, join_with(strings_view(c.tensor_split@), ","@))
}

/// Offload, threading, batching and memory arguments.
pub open spec fn compute_args(c: LaunchConfig) -> Seq<Seq<char>> {
    sizing_args(c) + tuning_args(c) + cache_args(c)
}

/// Speculative decoding: a draft model enables `-md` and the `--draft-*`
/// limits; a speculation type is passed whether or not a draft model is set.
pub open spec fn speculative_args(c: LaunchConfig) -> Seq<Seq<char>> {
    let has_draft = c.draft_model_path@.len() > 0;
    let has_spec = trim(c.spec_type@).len() > 0;
    pair_if(has_draft, "-md"@, c.draft_model_path@)
        + pair_if(has_spec, "--spec-type"@, c.spec_type@)
        + pair_if(has_spec && c.spec_draft_n_max > 0, "--spec-draft-n-max"@, decimal(c.spec_draft_n_max as nat))
        + pair_if(has_draft && c.draft_max_tokens > 0, "--draft-max"@, decimal(c.draft_max_tokens as nat))
        + pair_if(has_draft && c.draft_min_tokens > 0, "--draft-min"@, decimal(c.draft_min_tokens as nat))
        + pair_if(has_draft && c.draft_p_min.positive, "--draft-p-min"@, c.draft_p_min.text@)
}

/// The whole llama-server command line; extra arguments come last.
pub open spec fn server_args(c: LaunchConfig, mmproj: Option<Seq<char>>, kwargs: Option<Seq<char>>) -> Seq<Seq<char>> {
    source_args(c) + slot_args(c) + model_args(c, mmproj, kwargs) + compute_args(c) + speculative_args(c)
        + strings_view(c.extra_args@)
}

struct ArgList {
    args: Vec<String>,
}

impl ArgList {
    spec fn view(&self) -> Seq<Seq<char>> {
        strings_view(self.args@)
    }

    fn push(&mut self, s: String)
        ensures
            final(self).view() == old(self).view().push(s@),
    {
        self.args.push(s);
        assert(strings_view(self.args@) =~= old(self).view().push(s@));
    }

    fn push_str(&mut self, s: &str)
        ensures
            final(self).view() == old(self).view().push(s@),
    {
        self.push(s.to_string());
    }

    fn push_chars(&mut self, s: &[char])
        ensures
            final(self).view() == old(self).view().push(s@),
    {
        self.push(string_of(s));
    }

    fn pair(&mut self, f: &str, v: &[char])
        ensures
            final(self).view() == old(self).view() + seq![f@, v@],
    {
        self.push_str(f);
        self.push_chars(v);
        assert(final(self).view() =~= old(self).view() + seq![f@, v@]);
    }
}

fn is_given(o: &Option<String>) -> (b: bool)
    ensures
        b == given(*o),
{
    match o {
        Some(s) => trim_str(s.as_str()).len() > 0,
        None => false,
    }
}

proof fn lemma_extend(s0: Seq<Seq<char>>, acc: Seq<Seq<char>>, p: Seq<Seq<char>>)
    ensures
        (s0 + acc) + p == s0 + (acc + p),
        p.len() == 0 ==> s0 + (acc + p) == s0 + acc,
{
    assert((s0 + acc) + p =~= s0 + (acc + p));
    if p.len() == 0 {
        assert(acc + p =~= acc);
    }
}

fn push_context_args(a: &mut ArgList, c: &LaunchConfig, mmproj: &Option<String>)
    ensures
        final(a).view() == old(a).view() + context_args(*c, opt_view(*mmproj)),
{
    let ghost s0 = a.view();
    let ghost mut acc: Seq<Seq<char>> = Seq::empty();
    assert(s0 + acc =~= s0);
    let ghost p = pair_if(c.context_size is Some, "--ctx-size"@, decimal(c.context_size->0 as nat));
    if let Some(ctx) = c.context_size {
        a.pair("--ctx-size", &decimal_chars(ctx as u64));
    }
    proof { lemma_extend(s0, acc, p); acc = acc + p; }
    let ghost p = pair_if(opt_view(*mmproj) is Some, "--mmproj"@, opt_view(*mmproj)->0);
    if let Some(m) = mmproj {
        a.pair("--mmproj", &chars_of(m.as_str()));
    }
    proof { lemma_extend(s0, acc, p); acc = acc + p; }
    let ghost p = pair_if(given(c.fit_mode), "--fit"@, text_of(c.fit_mode));
    if is_given(&c.fit_mode) {
        a.pair("--fit", &chars_of(c.fit_mode.as_ref().unwrap().as_str()));
    }
    proof { lemma_extend(s0, acc, p); acc = acc + p; }
    let ghost p = pair_if(c.cache_ram_mb is Some, "--cache-ram"@, decimal(c.cache_ram_mb->0 as nat));
    if let Some(v) = c.cache_ram_mb {
        a.pair("--cache-ram", &decimal_chars(v as u64));
    }
    proof { lemma_extend(s0, acc, p); acc = acc + p; }
    let ghost p = pair_if(c.ctxcp is Some, "-ctxcp"@, decimal(c.ctxcp->0 as nat));
    if let Some(v) = c.ctxcp {
        a.pair("-ctxcp", &decimal_chars(v as u64));
    }
    proof { lemma_extend(s0, acc, p); acc = acc + p; }
    assert(acc =~= context_args(*c, opt_view(*mmproj)));
}

fn push_template_args(a: &mut ArgList, c: &LaunchConfig, kwargs: &Option<String>)
    ensures
        final(a).view() == old(a).view() + template_args(*c, opt_view(*kwargs)),
{
    let ghost s0 = a.view();
    let ghost mut acc: Seq<Seq<char>> = Seq::empty();
    assert(s0 + acc =~= s0);
    let ghost p = flag(c.use_jinja, "--jinja"@);
    if c.use_jinja {
        a.push_str("--jinja");
    }
    proof { lemma_extend(s0, acc, p); acc = acc + p; }
    let ghost p = pair_if(given(c.reasoning_mode), "--reasoning"@, text_of(c.reasoning_mode));
    if is_given(&c.reasoning_mode) {
        a.pair("--reasoning", &chars_of(c.reasoning_mode.as_ref().unwrap().as_str()));
    }
    proof { lemma_extend(s0, acc, p); acc = acc + p; }
    let ghost p = flag(c.reasoning_preserve, "--reasoning-preserve"@);
    if c.reasoning_preserve {
        a.push_str("--reasoning-preserve");
    }
    proof { lemma_extend(s0, acc, p); acc = acc + p; }
    let ghost p = pair_if(given(c.template_name), "--chat-template"@, text_of(c.template_name));
    if is_given(&c.template_name) {
        a.pair("--chat-template", &chars_of(c.template_name.as_ref().unwrap().as_str()));
    }
    proof { lemma_extend(s0, acc, p); acc = acc + p; }
    let ghost p = pair_if(c.template_file is Some, "--chat-template-file"@, text_of(c.template_file));
    if let Some(f) = &c.template_file {
        a.pair("--chat-template-file", &chars_of(f.as_str()));
    }
    proof { lemma_extend(s0, acc, p); acc = acc + p; }
    let ghost kw = opt_view(*kwargs);
    let ghost p = pair_if(kw is Some && trim(kw->0).len() > 0, "--chat-template-kwargs"@, kw->0);
    if let Some(k) = kwargs {
        if trim_str(k.as_str()).len() > 0 {
            a.pair("--chat-template-kwargs", &chars_of(k.as_str()));
        }
    }
    proof { lemma_extend(s0, acc, p); acc = acc + p; }
    assert(acc =~= template_args(*c, opt_view(*kwargs)));
}

fn push_model_args(a: &mut ArgList, c: &LaunchConfig, mmproj: &Option<String>, kwargs: &Option<String>)
    ensures
        final(a).view() == old(a).view() + model_args(*c, opt_view(*mmproj), opt_view(*kwargs)),
{
    let ghost s0 = a.view();
    push_context_args(a, c, mmproj);
    push_template_args(a, c, kwargs);
    proof { lemma_extend(s0, context_args(*c, opt_view(*mmproj)), template_args(*c, opt_view(*kwargs))); }
}

fn push_sizing_args(a: &mut ArgList, c: &LaunchConfig)
    ensures
        final(a).view() == old(a).view() + sizing_args(*c),
{
    let ghost s0 = a.view();
    let ghost mut acc: Seq<Seq<char>> = Seq::empty();
    assert(s0 + acc =~= s0);
    let ghost p = pair_if(
        c.gpu_layers != 0,
        "--n-gpu-layers"@,
        if c.gpu_layers < 0 { "999"@ } else { signed_text(c.gpu_layers as int) },
    );
    if c.gpu_layers != 0 {
        if c.gpu_layers < 0 {
            a.pair("--n-gpu-layers", &chars_of("999"));
        } else {
            a.pair("--n-gpu-layers", &signed_text_exec(c.gpu_layers));
        }
    }
    proof { lemma_extend(s0, acc, p); acc = acc + p; }
    let ghost p = pair_if(c.threads > 0, "--threads"@, decimal(c.threads as nat));
    if c.threads > 0 {
        a.pair("--threads", &decimal_chars(c.threads as u64));
    }
    proof { lemma_extend(s0, acc, p); acc = acc + p; }
    let ghost p = pair_if(c.threads_batch > 0, "--threads-batch"@, decimal(c.threads_batch as nat));
    if c.threads_batch > 0 {
        a.pair("--threads-batch", &decimal_chars(c.threads_batch as u64));
    }
    proof { lemma_extend(s0, acc, p); acc = acc + p; }
    let ghost p = pair_if(c.batch_size > 0, "--batch-size"@, decimal(c.batch_size as nat));
    if c.batch_size > 0 {
        a.pair("--batch-size", &decimal_chars(c.batch_size as u64));
    }
    proof { lemma_extend(s0, acc, p); acc = acc + p; }
    let ghost p = pair_if(c.ubatch_size > 0, "--ubatch-size"@, decimal(c.ubatch_size as nat));
    if c.ubatch_size > 0 {
        a.pair("--ubatch-size", &decimal_chars(c.ubatch_size as u64));
    }
    proof { lemma_extend(s0, acc, p); acc = acc + p; }
    assert(acc =~= sizing_args(*c));
}

fn push_tuning_args(a: &mut ArgList, c: &LaunchConfig)
    ensures
        final(a).view() == old(a).view() + tuning_args(*c),
{
    let ghost s0 = a.view();
    let ghost mut acc: Seq<Seq<char>> = Seq::empty();
    assert(s0 + acc =~= s0);
    let ghost p = pair_if(c.flash_attn, "--flash-attn"@, "on"@);
    if c.flash_attn {
        a.pair("--flash-attn", &chars_of("on"));
    }
    proof { lemma_extend(s0, acc, p); acc = acc + p; }
    let ghost p = flag(!c.use_mmap, "--no-mmap"@);
    if !c.use_mmap {
        a.push_str("--no-mmap");
    }
    proof { lemma_extend(s0, acc, p); acc = acc + p; }
    let ghost p = flag(c.use_mlock, "--mlock"@);
    if c.use_mlock {
        a.push_str("--mlock");
    }
    proof { lemma_extend(s0, acc, p); acc = acc + p; }
    let ghost p = flag(c.cont_batching, "--cont-batching"@);
    if c.cont_batching {
        a.push_str("--cont-batching");
    }
    proof { lemma_extend(s0, acc, p); acc = acc + p; }
    let ghost p = pair_if(c.main_gpu != 0, "--main-gpu"@, signed_text(c.main_gpu as int));
    if c.main_gpu != 0 {
        a.pair("--main-gpu", &signed_text_exec(c.main_gpu));
    }
    proof { lemma_extend(s0, acc, p); acc = acc + p; }
    let ghost p = pair_if(c.defrag_thold.positive, "--defrag-thold"@, c.defrag_thold.text@);
    if c.defrag_thold.positive {
        a.pair("--defrag-thold", &chars_of(c.defrag_thold.text.as_str()));
    }
    proof { lemma_extend(s0, acc, p); acc = acc + p; }
    let ghost p = pair_if(c.rope_freq_scale.positive, "--rope-freq-scale"@, c.rope_freq_scale.text@);
    if c.rope_freq_scale.positive {
        a.pair("--rope-freq-scale", &chars_of(c.rope_freq_scale.text.as_str()));
    }
    proof { lemma_extend(s0, acc, p); acc = acc + p; }
    assert(acc =~= tuning_args(*c));
}

fn join_commas(v: &Vec<String>) -> (r: Vec<char>)
    ensures
        r@ == join_with(strings_view(v@), ","@),
{
    let mut parts: Vec<Vec<char>> = Vec::new();
    let mut i: usize = 0;
    while i < v.len()
        invariant
            i <= v.len(),
            parts@.len() == i,
            forall|j: int| 0 <= j < i ==> (#[trigger] parts@[j])@ == v@[j]@,
        decreases v.len() - i,
    {
        parts.push(chars_of(v[i].as_str()));
        i += 1;
    }
    assert(parts@.map_values(|p: Vec<char>| p@) =~= strings_view(v@));
    join_chars(parts.as_slice(), &chars_of(","))
}

fn push_cache_args(a: &mut ArgList, c: &LaunchConfig)
    ensures
        final(a).view() == old(a).view() + cache_args(*c),
{
    let ghost s0 = a.view();
    let ghost mut acc: Seq<Seq<char>> = Seq::empty();
    assert(s0 + acc =~= s0);
    let ghost p = pair_if(c.cache_type_k@.len() > 0, "--cache-type-k"@, c.cache_type_k@);
    if !c.cache_type_k.as_str().is_empty() {
        a.pair("--cache-type-k", &chars_of(c.cache_type_k.as_str()));
    }
    proof { lemma_extend(s0, acc, p); acc = acc + p; }
    let ghost p = pair_if(c.cache_type_v@.len() > 0, "--cache-type-v"@, c.cache_type_v@);
    if !c.cache_type_v.as_str().is_empty() {
        a.pair("--cache-type-v", &chars_of(c.cache_type_v.as_str()));
    }
    proof { lemma_extend(s0, acc, p); acc = acc + p; }
    let ghost p = flag(c.kv_unified, "--kv-unified"@);
    if c.kv_unified {
        a.push_str("--kv-unified");
    }
    proof { lemma_extend(s0, acc, p); acc = acc + p; }
    let ghost p = flag(c.no_warmup, "--no-warmup"@);
    if c.no_warmup {
        a.push_str("--no-warmup");
    }
    proof { lemma_extend(s0, acc, p); acc = acc + p; }
    let ghost p = flag(c.ctx_shift, "--ctx-shift"@);
    if c.ctx_shift {
        a.push_str("--ctx-shift");
    }
    proof { lemma_extend(s0, acc, p); acc = acc + p; }
    let ghost p = pair_if(c.tensor_split@.len() > 0, "--tensor-split"@, join_with(strings_view(c.tensor_split@), ","@));
    if c.tensor_split.len() > 0 {
        a.pair("--tensor-split", &join_commas(&c.tensor_split));
    }
    proof { lemma_extend(s0, acc, p); acc = acc + p; }
    assert(acc =~= cache_args(*c));
}

fn push_compute_args(a: &mut ArgList, c: &LaunchConfig)
    ensures
        final(a).view() == old(a).view() + compute_args(*c),
{
    let ghost s0 = a.view();
    push_sizing_args(a, c);
    push_tuning_args(a, c);
    proof { lemma_extend(s0, sizing_args(*c), tuning_args(*c)); }
    push_cache_args(a, c);
    proof { lemma_extend(s0, sizing_args(*c) + tuning_args(*c), cache_args(*c)); }
}

fn push_speculative_args(a: &mut ArgList, c: &LaunchConfig)
    ensures
        final(a).view() == old(a).view() + speculative_args(*c),
{
    let ghost start = a.view();
    let has_draft = !c.draft_model_path.as_str().is_empty();
    let has_spec = trim_str(c.spec_type.as_str()).len() > 0;
    if has_draft {
        a.pair("-md", &chars_of(c.draft_model_path.as_str()));
    }
    if has_spec {
        a.pair("--spec-type", &chars_of(c.spec_type.as_str()));
        if c.spec_draft_n_max > 0 {
            a.pair("--spec-draft-n-max", &decimal_chars(c.spec_draft_n_max as u64));
        }
    }
    if has_draft {
        if c.draft_max_tokens > 0 {
            a.pair("--draft-max", &decimal_chars(c.draft_max_tokens as u64));
        }
        if c.draft_min_tokens > 0 {
            a.pair("--draft-min", &decimal_chars(c.draft_min_tokens as u64));
        }
        if c.draft_p_min.positive {
            a.pair("--draft-p-min", &chars_of(c.draft_p_min.text.as_str()));
        }
    }
    assert(a.view() =~= start + speculative_args(*c));
}

/// The llama-server command line for these settings, the vision projector
/// to attach (if any) and the normalised template arguments (if any).
pub fn build_server_args(config: &LaunchConfig, mmproj_path: &Option<String>, kwargs_json: &Option<String>) -> (r: Vec<String>)
    ensures
        strings_view(r@) == server_args(*config, opt_view(*mmproj_path), opt_view(*kwargs_json)),
{
    let mut a = ArgList { args: Vec::new() };
    assert(a.view() =~= Seq::<Seq<char>>::empty());
    if is_given(&config.hf_repo) {
        let repo = config.hf_repo.as_ref().unwrap();
        a.push_str("-hf");
        if is_given(&config.hf_file) {
            let file = config.hf_file.as_ref().unwrap();
            let mut v = chars_of(repo.as_str());
            v.push(':');
            let f = chars_of(file.as_str());
            let ghost v0 = v@;
            let mut i: usize = 0;
            while i < f.len()
                invariant
                    i <= f.len(),
                    v@ == v0 + f@.take(i as int),
                decreases f.len() - i,
            {
                v.push(f[i]);
                i += 1;
                assert(v@ =~= v0 + f@.take(i as int));
            }
            assert(f@.take(i as int) =~= f@);
            assert(v@ =~= repo@ + ":"@ + file@) by {
                reveal_strlit(":");
            }
            a.push_chars(&v);
        } else {
            a.push_str(repo.as_str());
        }
    } else {
        a.pair("--model", &chars_of(config.model_path.as_str()));
    }
    assert(a.view() =~= source_args(*config));
    a.pair("--port", &decimal_chars(config.port as u64));
    let slots: u32 = if config.parallel_slots >= 1 { config.parallel_slots } else { 1 };
    a.pair("--parallel", &decimal_chars(slots as u64));
    a.push_str("--slots");
    assert(a.view() =~= source_args(*config) + slot_args(*config));
    push_model_args(&mut a, config, mmproj_path, kwargs_json);
    push_compute_args(&mut a, config);
    push_speculative_args(&mut a, config);
    let ghost before = a.view();
    let mut i: usize = 0;
    while i < config.extra_args.len()
        invariant
            i <= config.extra_args.len(),
            a.view() == before + strings_view(config.extra_args@).take(i as int),
        decreases config.extra_args.len() - i,
    {
        a.push(config.extra_args[i].clone());
        i += 1;
        assert(a.view() =~= before + strings_view(config.extra_args@).take(i as int));
    }
    assert(strings_view(config.extra_args@).take(i as int) =~= strings_view(config.extra_args@));
    a.args
}

/// A model's arguments always end with the configured extra arguments, and
/// a model source always comes first.
pub proof fn lemma_server_args_shape(c: LaunchConfig, mmproj: Option<Seq<char>>, kwargs: Option<Seq<char>>)
    ensures
        server_args(c, mmproj, kwargs).len() >= strings_view(c.extra_args@).len() + 7,
        server_args(c, mmproj, kwargs).skip(
            server_args(c, mmproj, kwargs).len() - strings_view(c.extra_args@).len(),
        ) == strings_view(c.extra_args@),
        server_args(c, mmproj, kwargs)[0] == (if given(c.hf_repo) { "-hf"@ } else { "--model"@ }),
{
    let s = server_args(c, mmproj, kwargs);
    let e = strings_view(c.extra_args@);
    let head = source_args(c) + slot_args(c) + model_args(c, mmproj, kwargs) + compute_args(c) + speculative_args(c);
    assert(s == head + e);
    assert(s.skip(s.len() - e.len()) =~= e);
    assert(s[0] == source_args(c)[0]);
}

// ---------------------------------------------------------------------------
// llama-diffusion-cli arguments
// ---------------------------------------------------------------------------

/// The diffusion runner's command line: model, offload, conversation mode,
/// token budget (at least one), the KV-cache mode when given, visual mode,
/// then the extra arguments.
pub open spec fn diffusion_args(c: LaunchConfig) -> Seq<Seq<char>> {
    let kv = trim(c.diffusion_kv_cache@);
    seq![
        "-m"@,
        c.model_path@,
        "-ngl"@,
        if c.gpu_layers < 0 { "999"@ } else { signed_text(c.gpu_layers as int) },
        "-cnv"@,
        "-n"@,
        decimal(if c.diffusion_n_predict >= 1 { c.diffusion_n_predict as nat } else { 1 }),
    ] + pair_if(kv.len() > 0, "--diffusion-kv-cache"@, kv) + flag(c.diffusion_visual, "--diffusion-visual"@)
        + strings_view(c.diffusion_extra_args@)
}

/// The diffusion runner's command line.
pub fn build_diffusion_args(config: &LaunchConfig) -> (r: Vec<String>)
    ensures
        strings_view(r@) == diffusion_args(*config),
{
    let mut a = ArgList { args: Vec::new() };
    assert(a.view() =~= Seq::<Seq<char>>::empty());
    a.pair("-m", &chars_of(config.model_path.as_str()));
    if config.gpu_layers < 0 {
        a.pair("-ngl", &chars_of("999"));
    } else {
        a.pair("-ngl", &signed_text_exec(config.gpu_layers));
    }
    a.push_str("-cnv");
    let n: u32 = if config.diffusion_n_predict >= 1 { config.diffusion_n_predict } else { 1 };
    a.pair("-n", &decimal_chars(n as u64));
    let kv = trim_str(config.diffusion_kv_cache.as_str());
    if kv.len() > 0 {
        a.pair("--diffusion-kv-cache", &kv);
    }
    if config.diffusion_visual {
        a.push_str("--diffusion-visual");
    }
    let ghost before = a.view();
    let mut i: usize = 0;
    while i < config.diffusion_extra_args.len()
        invariant
            i <= config.diffusion_extra_args.len(),
            a.view() == before + strings_view(config.diffusion_extra_args@).take(i as int),
        decreases config.diffusion_extra_args.len() - i,
    {
        a.push(config.diffusion_extra_args[i].clone());
        i += 1;
        assert(a.view() =~= before + strings_view(config.diffusion_extra_args@).take(i as int));
    }
    assert(strings_view(config.diffusion_extra_args@).take(i as int) =~= strings_view(config.diffusion_extra_args@));
    assert(a.view() =~= diffusion_args(*config));
    a.args
}

// ---------------------------------------------------------------------------
// Launch previews
// ---------------------------------------------------------------------------

/// A preview of a llama-server launch of `c` with the located binary, the
/// projector to attach and the normalised template arguments.
pub open spec fn is_server_preview(
    p: LaunchPreview,
    c: LaunchConfig,
    server_path: Seq<char>,
    mmproj: Option<Seq<char>>,
    kwargs: Option<Seq<char>>,
) -> bool {
    &&& p.runtime@ == "llama-server"@
    &&& p.server_path@ == server_path
    &&& p.model_path@ == c.model_path@
    &&& opt_view(p.hf_repo) == opt_view(c.hf_repo)
    &&& opt_view(p.hf_file) == opt_view(c.hf_file)
    &&& opt_view(p.mmproj_path) == mmproj
    &&& p.backend_preference@ == c.backend_preference@
    &&& p.context_size == c.context_size
    &&& p.port == c.port
    &&& p.parallel_slots == (if c.parallel_slots >= 1 { c.parallel_slots } else { 1u32 })
    &&& opt_view(p.fit_mode) == opt_view(c.fit_mode)
    &&& p.cache_ram_mb == c.cache_ram_mb
    &&& p.ctxcp == c.ctxcp
    &&& p.use_jinja == c.use_jinja
    &&& opt_view(p.reasoning_mode) == opt_view(c.reasoning_mode)
    &&& p.reasoning_preserve == c.reasoning_preserve
    &&& p.template_mode@ == c.template_mode@
    &&& opt_view(p.template_source) == opt_view(c.template_source)
    &&& opt_view(p.template_path) == opt_view(c.template_file)
    &&& opt_view(p.template_name) == opt_view(c.template_name)
    &&& opt_view(p.chat_template_kwargs_json) == kwargs
    &&& p.draft_model_path@ == c.draft_model_path@
    &&& p.spec_type@ == c.spec_type@
    &&& p.spec_draft_n_max == c.spec_draft_n_max
    &&& p.draft_max_tokens == c.draft_max_tokens
    &&& p.draft_min_tokens == c.draft_min_tokens
    &&& p.draft_p_min@ == c.draft_p_min.text@
    &&& strings_view(p.args@) == server_args(c, mmproj, kwargs)
}

/// A preview of a llama-diffusion-cli run of `c` with the located runner:
/// no port, one slot, the runner's own conversation template and no
/// speculative decoding.
pub open spec fn is_diffusion_preview(p: LaunchPreview, c: LaunchConfig, runner_path: Seq<char>) -> bool {
    &&& p.runtime@ == "diffusion-cli"@
    &&& p.server_path@ == runner_path
    &&& p.model_path@ == c.model_path@
    &&& opt_view(p.hf_repo) == opt_view(c.hf_repo)
    &&& opt_view(p.hf_file) == opt_view(c.hf_file)
    &&& p.mmproj_path is None
    &&& p.backend_preference@ == c.backend_preference@
    &&& p.context_size == c.context_size
    &&& p.port == 0
    &&& p.parallel_slots == 1
    &&& opt_view(p.fit_mode) == opt_view(c.fit_mode)
    &&& p.cache_ram_mb == c.cache_ram_mb
    &&& p.ctxcp == c.ctxcp
    &&& !p.use_jinja
    &&& opt_view(p.reasoning_mode) == opt_view(c.reasoning_mode)
    &&& !p.reasoning_preserve
    &&& p.template_mode@ == "diffusion-cli"@
    &&& opt_view(p.template_source) == Some("llama-diffusion-cli:-cnv"@)
    &&& p.template_path is None
    &&& p.template_name is None
    &&& p.chat_template_kwargs_json is None
    &&& p.draft_model_path@.len() == 0
    &&& p.spec_type@.len() == 0
    &&& p.spec_draft_n_max == 0
    &&& p.draft_max_tokens == 0
    &&& p.draft_min_tokens == 0
    &&& p.draft_p_min@ == "0.0000"@
    &&& strings_view(p.args@) == diffusion_args(c)
}

/// The preview of a llama-server launch.
pub fn server_preview(
    config: &LaunchConfig,
    server_path: String,
    mmproj_path: Option<String>,
    kwargs_json: Option<String>,
) -> (p: LaunchPreview)
    ensures
        is_server_preview(p, *config, server_path@, opt_view(mmproj_path), opt_view(kwargs_json)),
{
    let args = build_server_args(config, &mmproj_path, &kwargs_json);
    LaunchPreview {
        runtime: "llama-server".to_string(),
        server_path,
        model_path: config.model_path.clone(),
        hf_repo: clone_opt_string(&config.hf_repo),
        hf_file: clone_opt_string(&config.hf_file),
        mmproj_path,
        backend_preference: config.backend_preference.clone(),
        context_size: config.context_size,
        port: config.port,
        parallel_slots: if config.parallel_slots >= 1 { config.parallel_slots } else { 1 },
        fit_mode: clone_opt_string(&config.fit_mode),
        cache_ram_mb: config.cache_ram_mb,
        ctxcp: config.ctxcp,
        use_jinja: config.use_jinja,
        reasoning_mode: clone_opt_string(&config.reasoning_mode),
        reasoning_preserve: config.reasoning_preserve,
        template_mode: config.template_mode.clone(),
        template_source: clone_opt_string(&config.template_source),
        template_path: clone_opt_string(&config.template_file),
        template_name: clone_opt_string(&config.template_name),
        chat_template_kwargs_json: kwargs_json,
        draft_model_path: config.draft_model_path.clone(),
        spec_type: config.spec_type.clone(),
        spec_draft_n_max: config.spec_draft_n_max,
        draft_max_tokens: config.draft_max_tokens,
        draft_min_tokens: config.draft_min_tokens,
        draft_p_min: config.draft_p_min.text.clone(),
        args,
    }
}

/// The preview of a llama-diffusion-cli run.
pub fn diffusion_preview(config: &LaunchConfig, runner_path: String) -> (p: LaunchPreview)
    ensures
        is_diffusion_preview(p, *config, runner_path@),
{
    let args = build_diffusion_args(config);
    let p = LaunchPreview {
        runtime: "diffusion-cli".to_string(),
        server_path: runner_path,
        model_path: config.model_path.clone(),
        hf_repo: clone_opt_string(&config.hf_repo),
        hf_file: clone_opt_string(&config.hf_file),
        mmproj_path: None,
        backend_preference: config.backend_preference.clone(),
        context_size: config.context_size,
        port: 0,
        parallel_slots: 1,
        fit_mode: clone_opt_string(&config.fit_mode),
        cache_ram_mb: config.cache_ram_mb,
        ctxcp: config.ctxcp,
        use_jinja: false,
        reasoning_mode: clone_opt_string(&config.reasoning_mode),
        reasoning_preserve: false,
        template_mode: "diffusion-cli".to_string(),
        template_source: Some("llama-diffusion-cli:-cnv".to_string()),
        template_path: None,
        template_name: None,
        chat_template_kwargs_json: None,
        draft_model_path: String::new(),
        spec_type: String::new(),
        spec_draft_n_max: 0,
        draft_max_tokens: 0,
        draft_min_tokens: 0,
        draft_p_min: "0.0000".to_string(),
        args,
    };
    proof {
        reveal_strlit("");
    }
    p
}

/// Why a launch preview cannot be built, checked in this order: the launch
/// settings, then for a diffusion model a Hugging Face source or a missing
/// runner, for any other model a missing llama-server or template
/// arguments that could not be normalised.
pub open spec fn preview_problem(
    c: LaunchConfig,
    model_exists: bool,
    draft_exists: bool,
    draft_is_file: bool,
    diffusion: bool,
    binary: Option<Seq<char>>,
    kwargs: Result<Option<Seq<char>>, Seq<char>>,
) -> Option<Seq<char>> {
    if launch_problem(c, model_exists, draft_exists, draft_is_file) is Some {
        launch_problem(c, model_exists, draft_exists, draft_is_file)
    } else if diffusion {
        if given(c.hf_repo) {
            Some(
                "DiffusionGemma currently requires a local GGUF file for llama-diffusion-cli; HF repo loading is not supported by the bridge yet"@,
            )
        } else if binary is None {
            Some("llama-diffusion-cli binary not found"@)
        } else {
            None
        }
    } else if binary is None {
        Some("llama-server binary not found"@)
    } else {
        match kwargs {
            Err(e) => Some(e),
            Ok(_) => None,
        }
    }
}

pub open spec fn kwargs_view(k: Result<Option<String>, String>) -> Result<Option<Seq<char>>, Seq<char>> {
    match k {
        Ok(o) => Ok(opt_view(o)),
        Err(e) => Err(e@),
    }
}

/// The projector put on the command line: the one found beside the model,
/// when the configuration asks for projectors and the model does vision.
pub open spec fn attached_mmproj(c: LaunchConfig, supports_vision: bool, found: Option<Seq<char>>) -> Option<Seq<char>> {
    if c.attach_mmproj && supports_vision {
        found
    } else {
        None
    }
}

/// The launch preview of `config`, given what was found on disk: whether
/// the model and draft files exist, whether the model is a diffusion model,
/// whether its file name marks it as doing vision, the binary located for
/// it, the projector found beside it, and the template arguments as
/// normalised for the model's family.
pub fn build_args_preview(
    config: &LaunchConfig,
    model_exists: bool,
    draft_exists: bool,
    draft_is_file: bool,
    diffusion: bool,
    supports_vision: bool,
    binary_path: Option<String>,
    mmproj_path: Option<String>,
    kwargs_json: Result<Option<String>, String>,
) -> (r: Result<LaunchPreview, String>)
    ensures
        match preview_problem(
            *config,
            model_exists,
            draft_exists,
            draft_is_file,
            diffusion,
            opt_view(binary_path),
            kwargs_view(kwargs_json),
        ) {
            Some(m) => r matches Err(e) && e@ == m,
            None => r matches Ok(p) && (if diffusion {
                is_diffusion_preview(p, *config, binary_path->0@)
            } else {
                is_server_preview(
                    p,
                    *config,
                    binary_path->0@,
                    attached_mmproj(*config, supports_vision, opt_view(mmproj_path)),
                    opt_view(kwargs_json->Ok_0),
                )
            }),
        },
{
    match validate_launch_config(config, model_exists, draft_exists, draft_is_file) {
        Err(e) => {
            return Err(e);
        },
        Ok(()) => {},
    }
    if diffusion {
        if is_given(&config.hf_repo) {
            return Err(
                "DiffusionGemma currently requires a local GGUF file for llama-diffusion-cli; HF repo loading is not supported by the bridge yet".to_string(),
            );
        }
        match binary_path {
            None => Err("llama-diffusion-cli binary not found".to_string()),
            Some(runner) => Ok(diffusion_preview(config, runner)),
        }
    } else {
        match binary_path {
            None => Err("llama-server binary not found".to_string()),
            Some(server) => match kwargs_json {
                Err(e) => Err(e),
                Ok(kwargs) => {
                    let attached = if config.attach_mmproj && supports_vision {
                        mmproj_path
                    } else {
                        None
                    };
                    Ok(server_preview(config, server, attached, kwargs))
                },
            },
        }
    }
}

/// The names in a list of name/value pairs: the entries at even positions.
pub open spec fn pair_names(args: Seq<Seq<char>>) -> Seq<Seq<char>> {
    Seq::new(args.len() / 2, |j: int| args[2 * j])
}

proof fn lemma_pair_names_concat(a: Seq<Seq<char>>, b: Seq<Seq<char>>)
    requires
        a.len() % 2 == 0,
        b.len() % 2 == 0,
    ensures
        (a + b).len() % 2 == 0,
        pair_names(a + b) == pair_names(a) + pair_names(b),
{
    assert(pair_names(a + b) =~= pair_names(a) + pair_names(b)) by {
        assert forall|j: int| 0 <= j < (a + b).len() / 2 implies #[trigger] pair_names(a + b)[j] == (pair_names(a)
            + pair_names(b))[j] by {
            if j < a.len() / 2 {
                assert((a + b)[2 * j] == a[2 * j]);
            } else {
                assert((a + b)[2 * j] == b[2 * j - a.len()]);
                assert(2 * (j - a.len() / 2) == 2 * j - a.len());
            }
        }
    }
}

proof fn lemma_pair_names_pair_if(b: bool, f: Seq<char>, v: Seq<char>)
    ensures
        pair_if(b, f, v).len() % 2 == 0,
        pair_names(pair_if(b, f, v)) == flag(b, f),
{
    assert(pair_names(pair_if(b, f, v)) =~= flag(b, f));
}

/// The names the speculative arguments pass, in order.
pub open spec fn speculation_names(c: LaunchConfig) -> Seq<Seq<char>> {
    let has_draft = c.draft_model_path@.len() > 0;
    let has_spec = trim(c.spec_type@).len() > 0;
    flag(has_draft, "-md"@) + flag(has_spec, "--spec-type"@) + flag(has_spec && c.spec_draft_n_max > 0, "--spec-draft-n-max"@)
        + flag(has_draft && c.draft_max_tokens > 0, "--draft-max"@) + flag(has_draft && c.draft_min_tokens > 0, "--draft-min"@)
        + flag(has_draft && c.draft_p_min.positive, "--draft-p-min"@)
}

proof fn lemma_speculative_segment(c: LaunchConfig, mmproj: Option<Seq<char>>, kwargs: Option<Seq<char>>)
    ensures
        ({
            let s = server_args(c, mmproj, kwargs);
            let x = strings_view(c.extra_args@);
            let sp = speculative_args(c);
            &&& s.len() >= x.len() + sp.len()
            &&& s.subrange(s.len() - x.len() - sp.len(), s.len() - x.len()) == sp
        }),
{
    let s = server_args(c, mmproj, kwargs);
    let x = strings_view(c.extra_args@);
    let sp = speculative_args(c);
    let head = source_args(c) + slot_args(c) + model_args(c, mmproj, kwargs) + compute_args(c);
    assert(s =~= head + sp + x);
    assert(s.subrange(s.len() - x.len() - sp.len(), s.len() - x.len()) =~= sp);
}

proof fn lemma_speculation_pairs(c: LaunchConfig)
    ensures
        speculative_args(c).len() % 2 == 0,
        pair_names(speculative_args(c)) == speculation_names(c),
        c.draft_model_path@.len() > 0 ==> speculative_args(c)[0] == "-md"@ && speculative_args(c)[1]
            == c.draft_model_path@,
{
    let has_draft = c.draft_model_path@.len() > 0;
    let has_spec = trim(c.spec_type@).len() > 0;
    let p1 = pair_if(has_draft, "-md"@, c.draft_model_path@);
    let p2 = pair_if(has_spec, "--spec-type"@, c.spec_type@);
    let p3 = pair_if(has_spec && c.spec_draft_n_max > 0, "--spec-draft-n-max"@, decimal(c.spec_draft_n_max as nat));
    let p4 = pair_if(has_draft && c.draft_max_tokens > 0, "--draft-max"@, decimal(c.draft_max_tokens as nat));
    let p5 = pair_if(has_draft && c.draft_min_tokens > 0, "--draft-min"@, decimal(c.draft_min_tokens as nat));
    let p6 = pair_if(has_draft && c.draft_p_min.positive, "--draft-p-min"@, c.draft_p_min.text@);
    lemma_pair_names_pair_if(has_draft, "-md"@, c.draft_model_path@);
    lemma_pair_names_pair_if(has_spec, "--spec-type"@, c.spec_type@);
    lemma_pair_names_pair_if(has_spec && c.spec_draft_n_max > 0, "--spec-draft-n-max"@, decimal(c.spec_draft_n_max as nat));
    lemma_pair_names_pair_if(has_draft && c.draft_max_tokens > 0, "--draft-max"@, decimal(c.draft_max_tokens as nat));
    lemma_pair_names_pair_if(has_draft && c.draft_min_tokens > 0, "--draft-min"@, decimal(c.draft_min_tokens as nat));
    lemma_pair_names_pair_if(has_draft && c.draft_p_min.positive, "--draft-p-min"@, c.draft_p_min.text@);
    lemma_pair_names_concat(p1, p2);
    lemma_pair_names_concat(p1 + p2, p3);
    lemma_pair_names_concat(p1 + p2 + p3, p4);
    lemma_pair_names_concat(p1 + p2 + p3 + p4, p5);
    lemma_pair_names_concat(p1 + p2 + p3 + p4 + p5, p6);
    assert(speculative_args(c) == p1 + p2 + p3 + p4 + p5 + p6);
    if has_draft {
        assert((p1 + p2 + p3 + p4 + p5 + p6)[0] == p1[0]);
        assert((p1 + p2 + p3 + p4 + p5 + p6)[1] == p1[1]);
    }
}

proof fn lemma_speculation_names(c: LaunchConfig)
    ensures
        speculation_names(c).contains("-md"@) <==> c.draft_model_path@.len() > 0,
        speculation_names(c).contains("--spec-type"@) <==> trim(c.spec_type@).len() > 0,
        speculation_names(c).contains("--draft-max"@) || speculation_names(c).contains("--draft-min"@)
            || speculation_names(c).contains("--draft-p-min"@) ==> c.draft_model_path@.len() > 0,
{
    reveal_strlit("-md");
    reveal_strlit("--spec-type");
    reveal_strlit("--spec-draft-n-max");
    reveal_strlit("--draft-max");
    reveal_strlit("--draft-min");
    reveal_strlit("--draft-p-min");
    let has_draft = c.draft_model_path@.len() > 0;
    let has_spec = trim(c.spec_type@).len() > 0;
    let names = speculation_names(c);
    let f1 = flag(has_draft, "-md"@);
    let f2 = flag(has_spec, "--spec-type"@);
    let f3 = flag(has_spec && c.spec_draft_n_max > 0, "--spec-draft-n-max"@);
    let later = flag(has_draft && c.draft_max_tokens > 0, "--draft-max"@) + flag(has_draft && c.draft_min_tokens > 0, "--draft-min"@)
        + flag(has_draft && c.draft_p_min.positive, "--draft-p-min"@);
    assert(names =~= f1 + f2 + f3 + later);
    assert forall|i: int| 0 <= i < names.len() && names[i] == "-md"@ implies has_draft by {
        if !has_draft || i > 0 {
            assert(names[i].len() > 3);
        }
    }
    if has_draft {
        assert(names[0] == "-md"@);
    }
    assert forall|i: int| 0 <= i < names.len() && names[i] == "--spec-type"@ implies has_spec by {
        if i < f1.len() {
            assert(names[i].len() == 3);
        } else if i >= f1.len() + f2.len() {
            assert(names[i][2] != "--spec-type"@[2] || names[i].len() != 11);
        }
    }
    if has_spec {
        assert(names[f1.len() as int] == "--spec-type"@);
    }
    if !has_draft {
        assert(names =~= f2 + f3);
        assert forall|i: int| 0 <= i < names.len() implies names[i] != "--draft-max"@ && names[i] != "--draft-min"@
            && names[i] != "--draft-p-min"@ by {
            assert(names[i][2] == 's');
        }
    }
}

/// Speculation settings reach the command line through its speculative
/// part, name/value pairs right before the extra arguments: `-md` with the
/// draft model comes first exactly when a draft model is set; `--spec-type`
/// is passed exactly when a speculation type is configured, with or without
/// a draft model; and the `--draft-*` limits are passed only with a draft
/// model.
pub proof fn lemma_speculation_flags(c: LaunchConfig, mmproj: Option<Seq<char>>, kwargs: Option<Seq<char>>)
    ensures
        ({
            let s = server_args(c, mmproj, kwargs);
            let x = strings_view(c.extra_args@);
            let sp = speculative_args(c);
            &&& s.len() >= x.len() + sp.len()
            &&& s.subrange(s.len() - x.len() - sp.len(), s.len() - x.len()) == sp
        }),
        speculative_args(c).len() % 2 == 0,
        pair_names(speculative_args(c)) == speculation_names(c),
        pair_names(speculative_args(c)).contains("-md"@) <==> c.draft_model_path@.len() > 0,
        c.draft_model_path@.len() > 0 ==> speculative_args(c)[0] == "-md"@ && speculative_args(c)[1]
            == c.draft_model_path@,
        pair_names(speculative_args(c)).contains("--spec-type"@) <==> trim(c.spec_type@).len() > 0,
        pair_names(speculative_args(c)).contains("--draft-max"@) || pair_names(speculative_args(c)).contains(
            "--draft-min"@,
        ) || pair_names(speculative_args(c)).contains("--draft-p-min"@) ==> c.draft_model_path@.len() > 0,
{
    lemma_speculative_segment(c, mmproj, kwargs);
    lemma_speculation_pairs(c);
    lemma_speculation_names(c);
}

proof fn lemma_template_segment(c: LaunchConfig, mmproj: Option<Seq<char>>, kwargs: Option<Seq<char>>)
    ensures
        ({
            let head = source_args(c) + slot_args(c) + context_args(c, mmproj);
            let t = template_args(c, kwargs);
            server_args(c, mmproj, kwargs).subrange(head.len() as int, (head.len() + t.len()) as int) == t
        }),
{
    let head = source_args(c) + slot_args(c) + context_args(c, mmproj);
    let t = template_args(c, kwargs);
    let s = server_args(c, mmproj, kwargs);
    assert(s =~= head + t + (compute_args(c) + speculative_args(c) + strings_view(c.extra_args@)));
    assert(s.subrange(head.len() as int, (head.len() + t.len()) as int) =~= t);
}

proof fn lemma_template_preserve_flag(c: LaunchConfig, kwargs: Option<Seq<char>>)
    requires
        text_of(c.reasoning_mode) != "--reasoning-preserve"@,
        text_of(c.template_name) != "--reasoning-preserve"@,
        text_of(c.template_file) != "--reasoning-preserve"@,
        kwargs matches Some(k) ==> k != "--reasoning-preserve"@,
    ensures
        template_args(c, kwargs).contains("--reasoning-preserve"@) <==> c.reasoning_preserve,
{
    reveal_strlit("--reasoning-preserve");
    reveal_strlit("--jinja");
    reveal_strlit("--reasoning");
    reveal_strlit("--chat-template");
    reveal_strlit("--chat-template-file");
    reveal_strlit("--chat-template-kwargs");
    let f = "--reasoning-preserve"@;
    let a = flag(c.use_jinja, "--jinja"@) + pair_if(given(c.reasoning_mode), "--reasoning"@, text_of(c.reasoning_mode));
    let m = flag(c.reasoning_preserve, f);
    let b1 = pair_if(given(c.template_name), "--chat-template"@, text_of(c.template_name));
    let b2 = pair_if(c.template_file is Some, "--chat-template-file"@, text_of(c.template_file));
    let b3 = pair_if(kwargs is Some && trim(kwargs->0).len() > 0, "--chat-template-kwargs"@, kwargs->0);
    let b = b1 + b2 + b3;
    let t = template_args(c, kwargs);
    assert(t =~= a + m + b);
    assert(!a.contains(f)) by {
        assert forall|i: int| 0 <= i < a.len() implies a[i] != f by {
            if a[i] == "--jinja"@ || a[i] == "--reasoning"@ {
                assert(a[i].len() != f.len());
            }
        }
    }
    assert(!b1.contains(f)) by {
        assert forall|i: int| 0 <= i < b1.len() implies b1[i] != f by {
            if i == 0 {
                assert(b1[i].len() != f.len());
            }
        }
    }
    assert(!b2.contains(f)) by {
        assert forall|i: int| 0 <= i < b2.len() implies b2[i] != f by {
            if i == 0 {
                assert(b2[i][2] != f[2]);
            }
        }
    }
    assert(!b3.contains(f)) by {
        assert forall|i: int| 0 <= i < b3.len() implies b3[i] != f by {
            if i == 0 {
                assert(b3[i].len() != f.len());
            }
        }
    }
    assert(!b.contains(f)) by {
        assert forall|i: int| 0 <= i < b.len() implies b[i] != f by {
            if i < b1.len() {
                assert(b[i] == b1[i]);
            } else if i < b1.len() + b2.len() {
                assert(b[i] == b2[i - b1.len()]);
            } else {
                assert(b[i] == b3[i - b1.len() - b2.len()]);
            }
        }
    }
    if c.reasoning_preserve {
        assert(t[a.len() as int] == f);
    } else {
        assert(t =~= a + b);
        assert forall|i: int| 0 <= i < t.len() implies t[i] != f by {
            if i < a.len() {
                assert(t[i] == a[i]);
            } else {
                assert(t[i] == b[i - a.len()]);
            }
        }
    }
}

/// The chat template and reasoning arguments sit right after the source,
/// slot and context arguments; `--reasoning-preserve` is among them exactly
/// when the configuration asks for it (none of the given texts being that
/// flag itself).
pub proof fn lemma_reasoning_preserve_flag(c: LaunchConfig, mmproj: Option<Seq<char>>, kwargs: Option<Seq<char>>)
    requires
        text_of(c.reasoning_mode) != "--reasoning-preserve"@,
        text_of(c.template_name) != "--reasoning-preserve"@,
        text_of(c.template_file) != "--reasoning-preserve"@,
        kwargs matches Some(k) ==> k != "--reasoning-preserve"@,
    ensures
        ({
            let head = source_args(c) + slot_args(c) + context_args(c, mmproj);
            let t = template_args(c, kwargs);
            server_args(c, mmproj, kwargs).subrange(head.len() as int, (head.len() + t.len()) as int) == t
        }),
        template_args(c, kwargs).contains("--reasoning-preserve"@) <==> c.reasoning_preserve,
{
    lemma_template_segment(c, mmproj, kwargs);
    lemma_template_preserve_flag(c, kwargs);
}

/// `s` passes the flag `f` with the value `v` right after it.
pub open spec fn holds_pair(s: Seq<Seq<char>>, f: Seq<char>, v: Seq<char>) -> bool {
    exists|i: int| 0 <= i && i + 1 < s.len() && s[i] == f && #[trigger] s[i + 1] == v
}

proof fn lemma_pair_within(x: Seq<Seq<char>>, t: Seq<Seq<char>>, y: Seq<Seq<char>>, f: Seq<char>, v: Seq<char>)
    requires
        holds_pair(t, f, v),
    ensures
        holds_pair(x + t + y, f, v),
{
    let k = choose|k: int| 0 <= k && k + 1 < t.len() && t[k] == f && #[trigger] t[k + 1] == v;
    let s = x + t + y;
    assert(s[x.len() + k] == f);
    assert(s[x.len() + k + 1] == v);
}

proof fn lemma_pair_alone(b: bool, f: Seq<char>, v: Seq<char>)
    requires
        b,
    ensures
        holds_pair(pair_if(b, f, v), f, v),
{
    assert(pair_if(b, f, v)[0int + 1] == v);
}

proof fn lemma_compute_in_server(c: LaunchConfig, mmproj: Option<Seq<char>>, kwargs: Option<Seq<char>>, f: Seq<char>, v: Seq<char>)
    requires
        holds_pair(compute_args(c), f, v),
    ensures
        holds_pair(server_args(c, mmproj, kwargs), f, v),
{
    let x = source_args(c) + slot_args(c) + model_args(c, mmproj, kwargs);
    let y = speculative_args(c) + strings_view(c.extra_args@);
    assert(server_args(c, mmproj, kwargs) =~= x + compute_args(c) + y);
    lemma_pair_within(x, compute_args(c), y, f, v);
}

proof fn lemma_sizing_in_server(c: LaunchConfig, mmproj: Option<Seq<char>>, kwargs: Option<Seq<char>>, f: Seq<char>, v: Seq<char>)
    requires
        holds_pair(sizing_args(c), f, v),
    ensures
        holds_pair(server_args(c, mmproj, kwargs), f, v),
{
    let e: Seq<Seq<char>> = seq![];
    assert(compute_args(c) =~= e + sizing_args(c) + (tuning_args(c) + cache_args(c)));
    lemma_pair_within(e, sizing_args(c), tuning_args(c) + cache_args(c), f, v);
    lemma_compute_in_server(c, mmproj, kwargs, f, v);
}

proof fn lemma_context_in_server(c: LaunchConfig, mmproj: Option<Seq<char>>, kwargs: Option<Seq<char>>, f: Seq<char>, v: Seq<char>)
    requires
        holds_pair(context_args(c, mmproj), f, v),
    ensures
        holds_pair(server_args(c, mmproj, kwargs), f, v),
{
    let x = source_args(c) + slot_args(c);
    let y = template_args(c, kwargs) + compute_args(c) + speculative_args(c) + strings_view(c.extra_args@);
    assert(server_args(c, mmproj, kwargs) =~= x + context_args(c, mmproj) + y);
    lemma_pair_within(x, context_args(c, mmproj), y, f, v);
}

proof fn lemma_slot_in_server(c: LaunchConfig, mmproj: Option<Seq<char>>, kwargs: Option<Seq<char>>, f: Seq<char>, v: Seq<char>)
    requires
        holds_pair(slot_args(c), f, v),
    ensures
        holds_pair(server_args(c, mmproj, kwargs), f, v),
{
    let x = source_args(c);
    let y = model_args(c, mmproj, kwargs) + compute_args(c) + speculative_args(c) + strings_view(c.extra_args@);
    assert(server_args(c, mmproj, kwargs) =~= x + slot_args(c) + y);
    lemma_pair_within(x, slot_args(c), y, f, v);
}

/// The sizing arguments are five optional pairs; a pair that is present is
/// passed.
proof fn lemma_in_five(
    p1: Seq<Seq<char>>,
    p2: Seq<Seq<char>>,
    p3: Seq<Seq<char>>,
    p4: Seq<Seq<char>>,
    p5: Seq<Seq<char>>,
    k: int,
    f: Seq<char>,
    v: Seq<char>,
)
    requires
        0 <= k < 5,
        holds_pair(seq![p1, p2, p3, p4, p5][k], f, v),
    ensures
        holds_pair(p1 + p2 + p3 + p4 + p5, f, v),
{
    let e: Seq<Seq<char>> = seq![];
    let all = p1 + p2 + p3 + p4 + p5;
    if k == 0 {
        assert(all =~= e + p1 + (p2 + p3 + p4 + p5));
        lemma_pair_within(e, p1, p2 + p3 + p4 + p5, f, v);
    } else if k == 1 {
        assert(all =~= p1 + p2 + (p3 + p4 + p5));
        lemma_pair_within(p1, p2, p3 + p4 + p5, f, v);
    } else if k == 2 {
        assert(all =~= (p1 + p2) + p3 + (p4 + p5));
        lemma_pair_within(p1 + p2, p3, p4 + p5, f, v);
    } else if k == 3 {
        assert(all =~= (p1 + p2 + p3) + p4 + p5);
        lemma_pair_within(p1 + p2 + p3, p4, p5, f, v);
    } else {
        assert(all =~= (p1 + p2 + p3 + p4) + p5 + e);
        lemma_pair_within(p1 + p2 + p3 + p4, p5, e, f, v);
    }
}

proof fn lemma_sizing_flag(c: LaunchConfig, k: int, b: bool, f: Seq<char>, v: Seq<char>)
    requires
        0 <= k < 5,
        b,
        k == 0 ==> f == "--n-gpu-layers"@ && b == (c.gpu_layers != 0) && v == (if c.gpu_layers < 0 {
            "999"@
        } else {
            signed_text(c.gpu_layers as int)
        }),
        k == 1 ==> f == "--threads"@ && b == (c.threads > 0) && v == decimal(c.threads as nat),
        k == 2 ==> f == "--threads-batch"@ && b == (c.threads_batch > 0) && v == decimal(c.threads_batch as nat),
        k == 3 ==> f == "--batch-size"@ && b == (c.batch_size > 0) && v == decimal(c.batch_size as nat),
        k == 4 ==> f == "--ubatch-size"@ && b == (c.ubatch_size > 0) && v == decimal(c.ubatch_size as nat),
    ensures
        holds_pair(sizing_args(c), f, v),
{
    let p1 = pair_if(c.gpu_layers != 0, "--n-gpu-layers"@, if c.gpu_layers < 0 { "999"@ } else { signed_text(c.gpu_layers as int) });
    let p2 = pair_if(c.threads > 0, "--threads"@, decimal(c.threads as nat));
    let p3 = pair_if(c.threads_batch > 0, "--threads-batch"@, decimal(c.threads_batch as nat));
    let p4 = pair_if(c.batch_size > 0, "--batch-size"@, decimal(c.batch_size as nat));
    let p5 = pair_if(c.ubatch_size > 0, "--ubatch-size"@, decimal(c.ubatch_size as nat));
    lemma_pair_alone(b, f, v);
    assert(seq![p1, p2, p3, p4, p5][k] == pair_if(b, f, v));
    lemma_in_five(p1, p2, p3, p4, p5, k, f, v);
    assert(sizing_args(c) == p1 + p2 + p3 + p4 + p5);
}

proof fn lemma_context_flags(c: LaunchConfig, mmproj: Option<Seq<char>>)
    ensures
        c.context_size matches Some(n) ==> holds_pair(context_args(c, mmproj), "--ctx-size"@, decimal(n as nat)),
        c.cache_ram_mb matches Some(n) ==> holds_pair(context_args(c, mmproj), "--cache-ram"@, decimal(n as nat)),
        c.ctxcp matches Some(n) ==> holds_pair(context_args(c, mmproj), "-ctxcp"@, decimal(n as nat)),
{
    let q1 = pair_if(c.context_size is Some, "--ctx-size"@, decimal(c.context_size->0 as nat));
    let q2 = pair_if(mmproj is Some, "--mmproj"@, mmproj->0);
    let q3 = pair_if(given(c.fit_mode), "--fit"@, text_of(c.fit_mode));
    let q4 = pair_if(c.cache_ram_mb is Some, "--cache-ram"@, decimal(c.cache_ram_mb->0 as nat));
    let q5 = pair_if(c.ctxcp is Some, "-ctxcp"@, decimal(c.ctxcp->0 as nat));
    let e: Seq<Seq<char>> = seq![];
    let ca = context_args(c, mmproj);
    if c.context_size is Some {
        lemma_pair_alone(true, "--ctx-size"@, decimal(c.context_size->0 as nat));
        assert(ca =~= e + q1 + (q2 + q3 + q4 + q5));
        lemma_pair_within(e, q1, q2 + q3 + q4 + q5, "--ctx-size"@, decimal(c.context_size->0 as nat));
    }
    if c.cache_ram_mb is Some {
        lemma_pair_alone(true, "--cache-ram"@, decimal(c.cache_ram_mb->0 as nat));
        assert(ca =~= (q1 + q2 + q3) + q4 + q5);
        lemma_pair_within(q1 + q2 + q3, q4, q5, "--cache-ram"@, decimal(c.cache_ram_mb->0 as nat));
    }
    if c.ctxcp is Some {
        lemma_pair_alone(true, "-ctxcp"@, decimal(c.ctxcp->0 as nat));
        assert(ca =~= (q1 + q2 + q3 + q4) + q5 + e);
        lemma_pair_within(q1 + q2 + q3 + q4, q5, e, "-ctxcp"@, decimal(c.ctxcp->0 as nat));
    }
}

proof fn lemma_slot_flags(c: LaunchConfig)
    ensures
        holds_pair(slot_args(c), "--port"@, decimal(c.port as nat)),
        holds_pair(slot_args(c), "--parallel"@, decimal(if c.parallel_slots >= 1 { c.parallel_slots as nat } else { 1 })),
{
    let sl = slot_args(c);
    assert(sl[0int + 1] == decimal(c.port as nat));
    assert(sl[2int + 1] == decimal(if c.parallel_slots >= 1 { c.parallel_slots as nat } else { 1 }));
}

/// The parts one after another.
pub open spec fn concat_all(parts: Seq<Seq<Seq<char>>>) -> Seq<Seq<char>>
    decreases parts.len(),
{
    if parts.len() == 0 {
        seq![]
    } else {
        concat_all(parts.drop_last()) + parts.last()
    }
}

proof fn lemma_part_passed(parts: Seq<Seq<Seq<char>>>, k: int, f: Seq<char>, v: Seq<char>)
    requires
        0 <= k < parts.len(),
        holds_pair(parts[k], f, v),
    ensures
        holds_pair(concat_all(parts), f, v),
    decreases parts.len(),
{
    let e: Seq<Seq<char>> = seq![];
    let front = concat_all(parts.drop_last());
    if k == parts.len() - 1 {
        assert(concat_all(parts) =~= front + parts.last() + e);
        lemma_pair_within(front, parts.last(), e, f, v);
    } else {
        assert(parts.drop_last()[k] == parts[k]);
        lemma_part_passed(parts.drop_last(), k, f, v);
        assert(concat_all(parts) =~= e + front + parts.last());
        lemma_pair_within(e, front, parts.last(), f, v);
    }
}

pub open spec fn tuning_parts(c: LaunchConfig) -> Seq<Seq<Seq<char>>> {
    seq![
        pair_if(c.flash_attn, "--flash-attn"@, "on"@),
        flag(!c.use_mmap, "--no-mmap"@),
        flag(c.use_mlock, "--mlock"@),
        flag(c.cont_batching, "--cont-batching"@),
        pair_if(c.main_gpu != 0, "--main-gpu"@, signed_text(c.main_gpu as int)),
        pair_if(c.defrag_thold.positive, "--defrag-thold"@, c.defrag_thold.text@),
        pair_if(c.rope_freq_scale.positive, "--rope-freq-scale"@, c.rope_freq_scale.text@),
    ]
}

pub open spec fn cache_parts(c: LaunchConfig) -> Seq<Seq<Seq<char>>> {
    seq![
        pair_if(c.cache_type_k@.len() > 0, "--cache-type-k"@, c.cache_type_k@),
        pair_if(c.cache_type_v@.len() > 0, "--cache-type-v"@, c.cache_type_v@),
        flag(c.kv_unified, "--kv-unified"@),
        flag(c.no_warmup, "--no-warmup"@),
        flag(c.ctx_shift, "--ctx-shift"@),
        pair_if(c.tensor_split@.len() > 0, "--tensor-split"@, join_with(strings_view(c.tensor_split@), ","@)),
    ]
}

pub open spec fn template_parts(c: LaunchConfig, kwargs: Option<Seq<char>>) -> Seq<Seq<Seq<char>>> {
    seq![
        flag(c.use_jinja, "--jinja"@),
        pair_if(given(c.reasoning_mode), "--reasoning"@, text_of(c.reasoning_mode)),
        flag(c.reasoning_preserve, "--reasoning-preserve"@),
        pair_if(given(c.template_name), "--chat-template"@, text_of(c.template_name)),
        pair_if(c.template_file is Some, "--chat-template-file"@, text_of(c.template_file)),
        pair_if(kwargs is Some && trim(kwargs->0).len() > 0, "--chat-template-kwargs"@, kwargs->0),
    ]
}

pub open spec fn speculation_parts(c: LaunchConfig) -> Seq<Seq<Seq<char>>> {
    let has_draft = c.draft_model_path@.len() > 0;
    let has_spec = trim(c.spec_type@).len() > 0;
    seq![
        pair_if(has_draft, "-md"@, c.draft_model_path@),
        pair_if(has_spec, "--spec-type"@, c.spec_type@),
        pair_if(has_spec && c.spec_draft_n_max > 0, "--spec-draft-n-max"@, decimal(c.spec_draft_n_max as nat)),
        pair_if(has_draft && c.draft_max_tokens > 0, "--draft-max"@, decimal(c.draft_max_tokens as nat)),
        pair_if(has_draft && c.draft_min_tokens > 0, "--draft-min"@, decimal(c.draft_min_tokens as nat)),
        pair_if(has_draft && c.draft_p_min.positive, "--draft-p-min"@, c.draft_p_min.text@),
    ]
}

proof fn lemma_parts_concat(c: LaunchConfig, kwargs: Option<Seq<char>>)
    ensures
        tuning_args(c) == concat_all(tuning_parts(c)),
        cache_args(c) == concat_all(cache_parts(c)),
        template_args(c, kwargs) == concat_all(template_parts(c, kwargs)),
        speculative_args(c) == concat_all(speculation_parts(c)),
{
    reveal_with_fuel(concat_all, 8);
    assert(tuning_args(c) =~= concat_all(tuning_parts(c)));
    assert(cache_args(c) =~= concat_all(cache_parts(c)));
    assert(template_args(c, kwargs) =~= concat_all(template_parts(c, kwargs)));
    assert(speculative_args(c) =~= concat_all(speculation_parts(c)));
}

proof fn lemma_tuning_in_server(c: LaunchConfig, mmproj: Option<Seq<char>>, kwargs: Option<Seq<char>>, f: Seq<char>, v: Seq<char>)
    requires
        holds_pair(tuning_args(c), f, v),
    ensures
        holds_pair(server_args(c, mmproj, kwargs), f, v),
{
    assert(compute_args(c) =~= sizing_args(c) + tuning_args(c) + cache_args(c));
    lemma_pair_within(sizing_args(c), tuning_args(c), cache_args(c), f, v);
    lemma_compute_in_server(c, mmproj, kwargs, f, v);
}

proof fn lemma_cache_in_server(c: LaunchConfig, mmproj: Option<Seq<char>>, kwargs: Option<Seq<char>>, f: Seq<char>, v: Seq<char>)
    requires
        holds_pair(cache_args(c), f, v),
    ensures
        holds_pair(server_args(c, mmproj, kwargs), f, v),
{
    let e: Seq<Seq<char>> = seq![];
    assert(compute_args(c) =~= (sizing_args(c) + tuning_args(c)) + cache_args(c) + e);
    lemma_pair_within(sizing_args(c) + tuning_args(c), cache_args(c), e, f, v);
    lemma_compute_in_server(c, mmproj, kwargs, f, v);
}

proof fn lemma_template_in_server(c: LaunchConfig, mmproj: Option<Seq<char>>, kwargs: Option<Seq<char>>, f: Seq<char>, v: Seq<char>)
    requires
        holds_pair(template_args(c, kwargs), f, v),
    ensures
        holds_pair(server_args(c, mmproj, kwargs), f, v),
{
    let x = source_args(c) + slot_args(c) + context_args(c, mmproj);
    let y = compute_args(c) + speculative_args(c) + strings_view(c.extra_args@);
    assert(server_args(c, mmproj, kwargs) =~= x + template_args(c, kwargs) + y);
    lemma_pair_within(x, template_args(c, kwargs), y, f, v);
}

proof fn lemma_speculation_in_server(c: LaunchConfig, mmproj: Option<Seq<char>>, kwargs: Option<Seq<char>>, f: Seq<char>, v: Seq<char>)
    requires
        holds_pair(speculative_args(c), f, v),
    ensures
        holds_pair(server_args(c, mmproj, kwargs), f, v),
{
    let x = source_args(c) + slot_args(c) + model_args(c, mmproj, kwargs) + compute_args(c);
    let y = strings_view(c.extra_args@);
    assert(server_args(c, mmproj, kwargs) =~= x + speculative_args(c) + y);
    lemma_pair_within(x, speculative_args(c), y, f, v);
}

proof fn lemma_part_in_server(
    c: LaunchConfig,
    mmproj: Option<Seq<char>>,
    kwargs: Option<Seq<char>>,
    seg: int,
    k: int,
    b: bool,
    f: Seq<char>,
    v: Seq<char>,
)
    requires
        0 <= seg < 4,
        b,
        seg == 0 ==> 0 <= k < 7 && tuning_parts(c)[k] == pair_if(b, f, v),
        seg == 1 ==> 0 <= k < 6 && cache_parts(c)[k] == pair_if(b, f, v),
        seg == 2 ==> 0 <= k < 6 && template_parts(c, kwargs)[k] == pair_if(b, f, v),
        seg == 3 ==> 0 <= k < 6 && speculation_parts(c)[k] == pair_if(b, f, v),
    ensures
        holds_pair(server_args(c, mmproj, kwargs), f, v),
{
    lemma_pair_alone(b, f, v);
    lemma_parts_concat(c, kwargs);
    if seg == 0 {
        lemma_part_passed(tuning_parts(c), k, f, v);
        lemma_tuning_in_server(c, mmproj, kwargs, f, v);
    } else if seg == 1 {
        lemma_part_passed(cache_parts(c), k, f, v);
        lemma_cache_in_server(c, mmproj, kwargs, f, v);
    } else if seg == 2 {
        lemma_part_passed(template_parts(c, kwargs), k, f, v);
        lemma_template_in_server(c, mmproj, kwargs, f, v);
    } else {
        lemma_part_passed(speculation_parts(c), k, f, v);
        lemma_speculation_in_server(c, mmproj, kwargs, f, v);
    }
}

proof fn lemma_source_flags(c: LaunchConfig, mmproj: Option<Seq<char>>, kwargs: Option<Seq<char>>)
    ensures
        ({
            let s = server_args(c, mmproj, kwargs);
            &&& !given(c.hf_repo) ==> holds_pair(s, "--model"@, c.model_path@)
            &&& given(c.hf_repo) && !given(c.hf_file) ==> holds_pair(s, "-hf"@, text_of(c.hf_repo))
            &&& given(c.hf_repo) && given(c.hf_file) ==> holds_pair(
                s,
                "-hf"@,
                text_of(c.hf_repo) + ":"@ + text_of(c.hf_file),
            )
            &&& mmproj matches Some(m) ==> holds_pair(s, "--mmproj"@, m)
            &&& given(c.fit_mode) ==> holds_pair(s, "--fit"@, text_of(c.fit_mode))
        }),
{
    let s = server_args(c, mmproj, kwargs);
    let rest = slot_args(c) + model_args(c, mmproj, kwargs) + compute_args(c) + speculative_args(c) + strings_view(
        c.extra_args@,
    );
    let e: Seq<Seq<char>> = seq![];
    assert(s =~= e + source_args(c) + rest);
    let src = source_args(c);
    assert(src[0int + 1] == src[1]);
    assert(holds_pair(src, src[0], src[1]));
    lemma_pair_within(e, src, rest, src[0], src[1]);
    let q1 = pair_if(c.context_size is Some, "--ctx-size"@, decimal(c.context_size->0 as nat));
    let q2 = pair_if(mmproj is Some, "--mmproj"@, mmproj->0);
    let q3 = pair_if(given(c.fit_mode), "--fit"@, text_of(c.fit_mode));
    let q4 = pair_if(c.cache_ram_mb is Some, "--cache-ram"@, decimal(c.cache_ram_mb->0 as nat));
    let q5 = pair_if(c.ctxcp is Some, "-ctxcp"@, decimal(c.ctxcp->0 as nat));
    if mmproj is Some {
        lemma_pair_alone(true, "--mmproj"@, mmproj->0);
        assert(context_args(c, mmproj) =~= q1 + q2 + (q3 + q4 + q5));
        lemma_pair_within(q1, q2, q3 + q4 + q5, "--mmproj"@, mmproj->0);
        lemma_context_in_server(c, mmproj, kwargs, "--mmproj"@, mmproj->0);
    }
    if given(c.fit_mode) {
        lemma_pair_alone(true, "--fit"@, text_of(c.fit_mode));
        assert(context_args(c, mmproj) =~= (q1 + q2) + q3 + (q4 + q5));
        lemma_pair_within(q1 + q2, q3, q4 + q5, "--fit"@, text_of(c.fit_mode));
        lemma_context_in_server(c, mmproj, kwargs, "--fit"@, text_of(c.fit_mode));
    }
}

proof fn lemma_template_value_flags(c: LaunchConfig, mmproj: Option<Seq<char>>, kwargs: Option<Seq<char>>)
    ensures
        ({
            let s = server_args(c, mmproj, kwargs);
            &&& given(c.reasoning_mode) ==> holds_pair(s, "--reasoning"@, text_of(c.reasoning_mode))
            &&& given(c.template_name) ==> holds_pair(s, "--chat-template"@, text_of(c.template_name))
            &&& c.template_file is Some ==> holds_pair(s, "--chat-template-file"@, text_of(c.template_file))
            &&& (kwargs matches Some(k) && trim(k).len() > 0) ==> holds_pair(s, "--chat-template-kwargs"@, kwargs->0)
        }),
{
    if given(c.reasoning_mode) {
        lemma_part_in_server(c, mmproj, kwargs, 2, 1, true, "--reasoning"@, text_of(c.reasoning_mode));
    }
    if given(c.template_name) {
        lemma_part_in_server(c, mmproj, kwargs, 2, 3, true, "--chat-template"@, text_of(c.template_name));
    }
    if c.template_file is Some {
        lemma_part_in_server(c, mmproj, kwargs, 2, 4, true, "--chat-template-file"@, text_of(c.template_file));
    }
    if kwargs is Some && trim(kwargs->0).len() > 0 {
        lemma_part_in_server(c, mmproj, kwargs, 2, 5, true, "--chat-template-kwargs"@, kwargs->0);
    }
}

proof fn lemma_tuning_value_flags(c: LaunchConfig, mmproj: Option<Seq<char>>, kwargs: Option<Seq<char>>)
    ensures
        ({
            let s = server_args(c, mmproj, kwargs);
            &&& c.flash_attn ==> holds_pair(s, "--flash-attn"@, "on"@)
            &&& c.main_gpu != 0 ==> holds_pair(s, "--main-gpu"@, signed_text(c.main_gpu as int))
            &&& c.defrag_thold.positive ==> holds_pair(s, "--defrag-thold"@, c.defrag_thold.text@)
            &&& c.rope_freq_scale.positive ==> holds_pair(s, "--rope-freq-scale"@, c.rope_freq_scale.text@)
        }),
{
    if c.flash_attn {
        lemma_part_in_server(c, mmproj, kwargs, 0, 0, true, "--flash-attn"@, "on"@);
    }
    if c.main_gpu != 0 {
        lemma_part_in_server(c, mmproj, kwargs, 0, 4, true, "--main-gpu"@, signed_text(c.main_gpu as int));
    }
    if c.defrag_thold.positive {
        lemma_part_in_server(c, mmproj, kwargs, 0, 5, true, "--defrag-thold"@, c.defrag_thold.text@);
    }
    if c.rope_freq_scale.positive {
        lemma_part_in_server(c, mmproj, kwargs, 0, 6, true, "--rope-freq-scale"@, c.rope_freq_scale.text@);
    }
}

proof fn lemma_cache_value_flags(c: LaunchConfig, mmproj: Option<Seq<char>>, kwargs: Option<Seq<char>>)
    ensures
        ({
            let s = server_args(c, mmproj, kwargs);
            &&& c.cache_type_k@.len() > 0 ==> holds_pair(s, "--cache-type-k"@, c.cache_type_k@)
            &&& c.cache_type_v@.len() > 0 ==> holds_pair(s, "--cache-type-v"@, c.cache_type_v@)
            &&& c.tensor_split@.len() > 0 ==> holds_pair(
                s,
                "--tensor-split"@,
                join_with(strings_view(c.tensor_split@), ","@),
            )
        }),
{
    if c.cache_type_k@.len() > 0 {
        lemma_part_in_server(c, mmproj, kwargs, 1, 0, true, "--cache-type-k"@, c.cache_type_k@);
    }
    if c.cache_type_v@.len() > 0 {
        lemma_part_in_server(c, mmproj, kwargs, 1, 1, true, "--cache-type-v"@, c.cache_type_v@);
    }
    if c.tensor_split@.len() > 0 {
        lemma_part_in_server(
            c,
            mmproj,
            kwargs,
            1,
            5,
            true,
            "--tensor-split"@,
            join_with(strings_view(c.tensor_split@), ","@),
        );
    }
}

proof fn lemma_speculation_value_flags(c: LaunchConfig, mmproj: Option<Seq<char>>, kwargs: Option<Seq<char>>)
    ensures
        ({
            let s = server_args(c, mmproj, kwargs);
            let has_draft = c.draft_model_path@.len() > 0;
            let has_spec = trim(c.spec_type@).len() > 0;
            &&& has_draft ==> holds_pair(s, "-md"@, c.draft_model_path@)
            &&& has_spec ==> holds_pair(s, "--spec-type"@, c.spec_type@)
            &&& has_spec && c.spec_draft_n_max > 0 ==> holds_pair(
                s,
                "--spec-draft-n-max"@,
                decimal(c.spec_draft_n_max as nat),
            )
            &&& has_draft && c.draft_max_tokens > 0 ==> holds_pair(s, "--draft-max"@, decimal(c.draft_max_tokens as nat))
            &&& has_draft && c.draft_min_tokens > 0 ==> holds_pair(s, "--draft-min"@, decimal(c.draft_min_tokens as nat))
            &&& has_draft && c.draft_p_min.positive ==> holds_pair(s, "--draft-p-min"@, c.draft_p_min.text@)
        }),
{
    let has_draft = c.draft_model_path@.len() > 0;
    let has_spec = trim(c.spec_type@).len() > 0;
    if has_draft {
        lemma_part_in_server(c, mmproj, kwargs, 3, 0, true, "-md"@, c.draft_model_path@);
    }
    if has_spec {
        lemma_part_in_server(c, mmproj, kwargs, 3, 1, true, "--spec-type"@, c.spec_type@);
    }
    if has_spec && c.spec_draft_n_max > 0 {
        lemma_part_in_server(c, mmproj, kwargs, 3, 2, true, "--spec-draft-n-max"@, decimal(c.spec_draft_n_max as nat));
    }
    if has_draft && c.draft_max_tokens > 0 {
        lemma_part_in_server(c, mmproj, kwargs, 3, 3, true, "--draft-max"@, decimal(c.draft_max_tokens as nat));
    }
    if has_draft && c.draft_min_tokens > 0 {
        lemma_part_in_server(c, mmproj, kwargs, 3, 4, true, "--draft-min"@, decimal(c.draft_min_tokens as nat));
    }
    if has_draft && c.draft_p_min.positive {
        lemma_part_in_server(c, mmproj, kwargs, 3, 5, true, "--draft-p-min"@, c.draft_p_min.text@);
    }
}

/// Each text setting reaches the command line as its own flag followed by
/// that same setting, when it is set: the model path (or the Hugging Face
/// reference), the projector, the fit mode, the reasoning mode, the
/// template name, file and arguments, the attention, GPU and RoPE settings,
/// the cache types, the tensor split, and the draft model and speculation
/// settings.
pub proof fn lemma_setting_flags(c: LaunchConfig, mmproj: Option<Seq<char>>, kwargs: Option<Seq<char>>)
    ensures
        ({
            let s = server_args(c, mmproj, kwargs);
            let has_draft = c.draft_model_path@.len() > 0;
            let has_spec = trim(c.spec_type@).len() > 0;
            &&& !given(c.hf_repo) ==> holds_pair(s, "--model"@, c.model_path@)
            &&& given(c.hf_repo) && !given(c.hf_file) ==> holds_pair(s, "-hf"@, text_of(c.hf_repo))
            &&& given(c.hf_repo) && given(c.hf_file) ==> holds_pair(
                s,
                "-hf"@,
                text_of(c.hf_repo) + ":"@ + text_of(c.hf_file),
            )
            &&& mmproj matches Some(m) ==> holds_pair(s, "--mmproj"@, m)
            &&& given(c.fit_mode) ==> holds_pair(s, "--fit"@, text_of(c.fit_mode))
            &&& given(c.reasoning_mode) ==> holds_pair(s, "--reasoning"@, text_of(c.reasoning_mode))
            &&& given(c.template_name) ==> holds_pair(s, "--chat-template"@, text_of(c.template_name))
            &&& c.template_file is Some ==> holds_pair(s, "--chat-template-file"@, text_of(c.template_file))
            &&& (kwargs matches Some(k) && trim(k).len() > 0) ==> holds_pair(s, "--chat-template-kwargs"@, kwargs->0)
            &&& c.flash_attn ==> holds_pair(s, "--flash-attn"@, "on"@)
            &&& c.main_gpu != 0 ==> holds_pair(s, "--main-gpu"@, signed_text(c.main_gpu as int))
            &&& c.defrag_thold.positive ==> holds_pair(s, "--defrag-thold"@, c.defrag_thold.text@)
            &&& c.rope_freq_scale.positive ==> holds_pair(s, "--rope-freq-scale"@, c.rope_freq_scale.text@)
            &&& c.cache_type_k@.len() > 0 ==> holds_pair(s, "--cache-type-k"@, c.cache_type_k@)
            &&& c.cache_type_v@.len() > 0 ==> holds_pair(s, "--cache-type-v"@, c.cache_type_v@)
            &&& c.tensor_split@.len() > 0 ==> holds_pair(
                s,
                "--tensor-split"@,
                join_with(strings_view(c.tensor_split@), ","@),
            )
            &&& has_draft ==> holds_pair(s, "-md"@, c.draft_model_path@)
            &&& has_spec ==> holds_pair(s, "--spec-type"@, c.spec_type@)
            &&& has_spec && c.spec_draft_n_max > 0 ==> holds_pair(
                s,
                "--spec-draft-n-max"@,
                decimal(c.spec_draft_n_max as nat),
            )
            &&& has_draft && c.draft_max_tokens > 0 ==> holds_pair(s, "--draft-max"@, decimal(c.draft_max_tokens as nat))
            &&& has_draft && c.draft_min_tokens > 0 ==> holds_pair(s, "--draft-min"@, decimal(c.draft_min_tokens as nat))
            &&& has_draft && c.draft_p_min.positive ==> holds_pair(s, "--draft-p-min"@, c.draft_p_min.text@)
        }),
{
    lemma_source_flags(c, mmproj, kwargs);
    lemma_template_value_flags(c, mmproj, kwargs);
    lemma_tuning_value_flags(c, mmproj, kwargs);
    lemma_cache_value_flags(c, mmproj, kwargs);
    lemma_speculation_value_flags(c, mmproj, kwargs);
}

proof fn lemma_part_contains(parts: Seq<Seq<Seq<char>>>, k: int, f: Seq<char>)
    requires
        0 <= k < parts.len(),
        parts[k].contains(f),
    ensures
        concat_all(parts).contains(f),
    decreases parts.len(),
{
    let front = concat_all(parts.drop_last());
    let j = choose|j: int| 0 <= j < parts[k].len() && parts[k][j] == f;
    if k == parts.len() - 1 {
        assert((front + parts.last())[front.len() + j] == f);
    } else {
        assert(parts.drop_last()[k] == parts[k]);
        lemma_part_contains(parts.drop_last(), k, f);
        let i = choose|i: int| 0 <= i < front.len() && front[i] == f;
        assert((front + parts.last())[i] == f);
    }
}

proof fn lemma_contains_within(x: Seq<Seq<char>>, t: Seq<Seq<char>>, y: Seq<Seq<char>>, f: Seq<char>)
    requires
        t.contains(f),
    ensures
        (x + t + y).contains(f),
{
    let j = choose|j: int| 0 <= j < t.len() && t[j] == f;
    assert((x + t + y)[x.len() + j] == f);
}

proof fn lemma_compute_contains(c: LaunchConfig, mmproj: Option<Seq<char>>, kwargs: Option<Seq<char>>, f: Seq<char>)
    requires
        compute_args(c).contains(f),
    ensures
        server_args(c, mmproj, kwargs).contains(f),
{
    let x = source_args(c) + slot_args(c) + model_args(c, mmproj, kwargs);
    let y = speculative_args(c) + strings_view(c.extra_args@);
    assert(server_args(c, mmproj, kwargs) =~= x + compute_args(c) + y);
    lemma_contains_within(x, compute_args(c), y, f);
}

proof fn lemma_tuning_contains(c: LaunchConfig, mmproj: Option<Seq<char>>, kwargs: Option<Seq<char>>, f: Seq<char>)
    requires
        tuning_args(c).contains(f),
    ensures
        server_args(c, mmproj, kwargs).contains(f),
{
    assert(compute_args(c) == sizing_args(c) + tuning_args(c) + cache_args(c));
    lemma_contains_within(sizing_args(c), tuning_args(c), cache_args(c), f);
    lemma_compute_contains(c, mmproj, kwargs, f);
}

proof fn lemma_cache_contains(c: LaunchConfig, mmproj: Option<Seq<char>>, kwargs: Option<Seq<char>>, f: Seq<char>)
    requires
        cache_args(c).contains(f),
    ensures
        server_args(c, mmproj, kwargs).contains(f),
{
    let e: Seq<Seq<char>> = seq![];
    assert(compute_args(c) =~= (sizing_args(c) + tuning_args(c)) + cache_args(c) + e);
    lemma_contains_within(sizing_args(c) + tuning_args(c), cache_args(c), e, f);
    lemma_compute_contains(c, mmproj, kwargs, f);
}

proof fn lemma_template_contains(c: LaunchConfig, mmproj: Option<Seq<char>>, kwargs: Option<Seq<char>>, f: Seq<char>)
    requires
        template_args(c, kwargs).contains(f),
    ensures
        server_args(c, mmproj, kwargs).contains(f),
{
    let x = source_args(c) + slot_args(c) + context_args(c, mmproj);
    let y = compute_args(c) + speculative_args(c) + strings_view(c.extra_args@);
    assert(server_args(c, mmproj, kwargs) =~= x + template_args(c, kwargs) + y);
    lemma_contains_within(x, template_args(c, kwargs), y, f);
}

proof fn lemma_switch_in_server(
    c: LaunchConfig,
    mmproj: Option<Seq<char>>,
    kwargs: Option<Seq<char>>,
    seg: int,
    k: int,
    f: Seq<char>,
)
    requires
        0 <= seg < 3,
        seg == 0 ==> 0 <= k < 7 && tuning_parts(c)[k] == flag(true, f),
        seg == 1 ==> 0 <= k < 6 && cache_parts(c)[k] == flag(true, f),
        seg == 2 ==> 0 <= k < 6 && template_parts(c, kwargs)[k] == flag(true, f),
    ensures
        server_args(c, mmproj, kwargs).contains(f),
{
    assert(flag(true, f)[0] == f);
    lemma_parts_concat(c, kwargs);
    if seg == 0 {
        lemma_part_contains(tuning_parts(c), k, f);
        lemma_tuning_contains(c, mmproj, kwargs, f);
    } else if seg == 1 {
        lemma_part_contains(cache_parts(c), k, f);
        lemma_cache_contains(c, mmproj, kwargs, f);
    } else {
        lemma_part_contains(template_parts(c, kwargs), k, f);
        lemma_template_contains(c, mmproj, kwargs, f);
    }
}

proof fn lemma_slots_switch(c: LaunchConfig, mmproj: Option<Seq<char>>, kwargs: Option<Seq<char>>)
    ensures
        server_args(c, mmproj, kwargs).contains("--slots"@),
{
    let s = server_args(c, mmproj, kwargs);
    let x = source_args(c);
    let y = model_args(c, mmproj, kwargs) + compute_args(c) + speculative_args(c) + strings_view(c.extra_args@);
    assert(s =~= x + slot_args(c) + y);
    assert(slot_args(c)[4] == "--slots"@);
    lemma_contains_within(x, slot_args(c), y, "--slots"@);
}

/// Each switch that is turned on is passed: `--slots` always, `--jinja`,
/// `--reasoning-preserve`, `--mlock`, `--cont-batching`, `--kv-unified`,
/// `--no-warmup` and `--ctx-shift` when set, and `--no-mmap` when memory
/// mapping is off.
pub proof fn lemma_switch_flags(c: LaunchConfig, mmproj: Option<Seq<char>>, kwargs: Option<Seq<char>>)
    ensures
        ({
            let s = server_args(c, mmproj, kwargs);
            &&& s.contains("--slots"@)
            &&& c.use_jinja ==> s.contains("--jinja"@)
            &&& c.reasoning_preserve ==> s.contains("--reasoning-preserve"@)
            &&& !c.use_mmap ==> s.contains("--no-mmap"@)
            &&& c.use_mlock ==> s.contains("--mlock"@)
            &&& c.cont_batching ==> s.contains("--cont-batching"@)
            &&& c.kv_unified ==> s.contains("--kv-unified"@)
            &&& c.no_warmup ==> s.contains("--no-warmup"@)
            &&& c.ctx_shift ==> s.contains("--ctx-shift"@)
        }),
{
    lemma_slots_switch(c, mmproj, kwargs);
    if c.use_jinja {
        lemma_switch_in_server(c, mmproj, kwargs, 2, 0, "--jinja"@);
    }
    if c.reasoning_preserve {
        lemma_switch_in_server(c, mmproj, kwargs, 2, 2, "--reasoning-preserve"@);
    }
    if !c.use_mmap {
        lemma_switch_in_server(c, mmproj, kwargs, 0, 1, "--no-mmap"@);
    }
    if c.use_mlock {
        lemma_switch_in_server(c, mmproj, kwargs, 0, 2, "--mlock"@);
    }
    if c.cont_batching {
        lemma_switch_in_server(c, mmproj, kwargs, 0, 3, "--cont-batching"@);
    }
    if c.kv_unified {
        lemma_switch_in_server(c, mmproj, kwargs, 1, 2, "--kv-unified"@);
    }
    if c.no_warmup {
        lemma_switch_in_server(c, mmproj, kwargs, 1, 3, "--no-warmup"@);
    }
    if c.ctx_shift {
        lemma_switch_in_server(c, mmproj, kwargs, 1, 4, "--ctx-shift"@);
    }
}

/// Each numeric setting reaches the command line as its own flag followed by
/// the decimal text of that same setting: the port and slot count always,
/// the context size, cache size, checkpoint count, threads and batch sizes
/// when they are set, and `999` layers when all layers go to the GPU.
pub proof fn lemma_numeric_flags(c: LaunchConfig, mmproj: Option<Seq<char>>, kwargs: Option<Seq<char>>)
    ensures
        ({
            let s = server_args(c, mmproj, kwargs);
            &&& holds_pair(s, "--port"@, decimal(c.port as nat))
            &&& holds_pair(
                s,
                "--parallel"@,
                decimal(if c.parallel_slots >= 1 { c.parallel_slots as nat } else { 1 }),
            )
            &&& c.context_size matches Some(n) ==> holds_pair(s, "--ctx-size"@, decimal(n as nat))
            &&& c.cache_ram_mb matches Some(n) ==> holds_pair(s, "--cache-ram"@, decimal(n as nat))
            &&& c.ctxcp matches Some(n) ==> holds_pair(s, "-ctxcp"@, decimal(n as nat))
            &&& c.gpu_layers < 0 ==> holds_pair(s, "--n-gpu-layers"@, "999"@)
            &&& c.threads > 0 ==> holds_pair(s, "--threads"@, decimal(c.threads as nat))
            &&& c.threads_batch > 0 ==> holds_pair(s, "--threads-batch"@, decimal(c.threads_batch as nat))
            &&& c.batch_size > 0 ==> holds_pair(s, "--batch-size"@, decimal(c.batch_size as nat))
            &&& c.ubatch_size > 0 ==> holds_pair(s, "--ubatch-size"@, decimal(c.ubatch_size as nat))
        }),
{
    lemma_slot_flags(c);
    lemma_slot_in_server(c, mmproj, kwargs, "--port"@, decimal(c.port as nat));
    lemma_slot_in_server(
        c,
        mmproj,
        kwargs,
        "--parallel"@,
        decimal(if c.parallel_slots >= 1 { c.parallel_slots as nat } else { 1 }),
    );
    lemma_context_flags(c, mmproj);
    if let Some(n) = c.context_size {
        lemma_context_in_server(c, mmproj, kwargs, "--ctx-size"@, decimal(n as nat));
    }
    if let Some(n) = c.cache_ram_mb {
        lemma_context_in_server(c, mmproj, kwargs, "--cache-ram"@, decimal(n as nat));
    }
    if let Some(n) = c.ctxcp {
        lemma_context_in_server(c, mmproj, kwargs, "-ctxcp"@, decimal(n as nat));
    }
    if c.gpu_layers < 0 {
        lemma_sizing_flag(c, 0, true, "--n-gpu-layers"@, "999"@);
        lemma_sizing_in_server(c, mmproj, kwargs, "--n-gpu-layers"@, "999"@);
    }
    if c.threads > 0 {
        lemma_sizing_flag(c, 1, true, "--threads"@, decimal(c.threads as nat));
        lemma_sizing_in_server(c, mmproj, kwargs, "--threads"@, decimal(c.threads as nat));
    }
    if c.threads_batch > 0 {
        lemma_sizing_flag(c, 2, true, "--threads-batch"@, decimal(c.threads_batch as nat));
        lemma_sizing_in_server(c, mmproj, kwargs, "--threads-batch"@, decimal(c.threads_batch as nat));
    }
    if c.batch_size > 0 {
        lemma_sizing_flag(c, 3, true, "--batch-size"@, decimal(c.batch_size as nat));
        lemma_sizing_in_server(c, mmproj, kwargs, "--batch-size"@, decimal(c.batch_size as nat));
    }
    if c.ubatch_size > 0 {
        lemma_sizing_flag(c, 4, true, "--ubatch-size"@, decimal(c.ubatch_size as nat));
        lemma_sizing_in_server(c, mmproj, kwargs, "--ubatch-size"@, decimal(c.ubatch_size as nat));
    }
}

/// Whenever a speculation type is configured, the command line passes it
/// with `--spec-type`, whether or not a draft model is set.
pub proof fn lemma_spec_type_always_passed(c: LaunchConfig, mmproj: Option<Seq<char>>, kwargs: Option<Seq<char>>)
    requires
        trim(c.spec_type@).len() > 0,
    ensures
        exists|i: int|
            0 <= i && i + 1 < server_args(c, mmproj, kwargs).len() && #[trigger] server_args(c, mmproj, kwargs)[i]
                == "--spec-type"@ && server_args(c, mmproj, kwargs)[i + 1] == c.spec_type@,
{
    let head = source_args(c) + slot_args(c) + model_args(c, mmproj, kwargs) + compute_args(c);
    let has_draft = c.draft_model_path@.len() > 0;
    let md = pair_if(has_draft, "-md"@, c.draft_model_path@);
    let rest = speculative_args(c);
    let i: int = (head.len() + md.len()) as int;
    assert(server_args(c, mmproj, kwargs) =~= head + rest + strings_view(c.extra_args@));
    assert(rest[md.len() as int] == "--spec-type"@);
    assert(rest[md.len() as int + 1] == c.spec_type@);
    assert(server_args(c, mmproj, kwargs)[i] == "--spec-type"@);
    assert(server_args(c, mmproj, kwargs)[i + 1] == c.spec_type@);
}

} // verus!

//! The decisions of loading a model: the launch settings a load request
//! overrides, which chat template the launch uses, whether the running
//! server already serves the request, and how the wait for the server to
//! become healthy goes.

use vstd::prelude::*;
use crate::config::ProcessConfig;
use crate::engine::launch::{LaunchPreview, strings_view};
use crate::runtime::{names_agree, names_match, RuntimeLoadOverrides};
use crate::text::{
    chars_equal, chars_of, concat_chars, contains_chars, contains_seq, decimal, decimal_chars, join_chars,
    join_with, split_chars, split_on, string_of, to_lowercase, trim, trim_chars, trim_str, unicode_lowercase,
    lemma_split_on_len,
};

verus! {

broadcast use vstd::string::group_string_axioms;

pub open spec fn opt_view(o: Option<String>) -> Option<Seq<char>> {
    match o {
        Some(s) => Some(s@),
        None => None,
    }
}

fn clone_opt(o: &Option<String>) -> (r: Option<String>)
    ensures
        opt_view(r) == opt_view(*o),
{
    match o {
        Some(s) => Some(s.clone()),
        None => None,
    }
}

fn cat(a: &str, b: &str) -> (r: String)
    ensures
        r@ == a@ + b@,
{
    string_of(&concat_chars(&chars_of(a), &chars_of(b)))
}

fn cat3(a: &str, b: &str, c: &str) -> (r: String)
    ensures
        r@ == a@ + b@ + c@,
{
    string_of(&concat_chars(&concat_chars(&chars_of(a), &chars_of(b)), &chars_of(c)))
}

// ---------------------------------------------------------------------------
// Overrides
// ---------------------------------------------------------------------------

fn copy_strings(v: &Vec<String>) -> (r: Vec<String>)
    ensures
        strings_view(r@) == strings_view(v@),
{
    let mut copy: Vec<String> = Vec::new();
    let mut i: usize = 0;
    while i < v.len()
        invariant
            i <= v@.len(),
            strings_view(copy@) == strings_view(v@).take(i as int),
        decreases v@.len() - i,
    {
        let ghost before = copy@;
        let s = v[i].clone();
        assert(s@ == v@[i as int]@);
        copy.push(s);
        assert(copy@ == before.push(s));
        assert(strings_view(copy@) =~= strings_view(before).push(s@));
        i += 1;
        assert(strings_view(copy@) =~= strings_view(v@).take(i as int));
    }
    assert(strings_view(v@).take(i as int) =~= strings_view(v@));
    copy
}

/// Apply a load request's overrides to the launch settings: each given
/// override replaces its setting; the Hugging Face source is not a
/// setting and is left to the launch.
pub fn apply_load_overrides(config: &mut ProcessConfig, overrides: &RuntimeLoadOverrides)
    ensures
        final(config).fit_mode@ == match overrides.fit_mode {
            Some(v) => v@,
            None => old(config).fit_mode@,
        },
        final(config).cache_ram_mb == match overrides.cache_ram_mb {
            Some(v) => Some(v),
            None => old(config).cache_ram_mb,
        },
        final(config).ctxcp == match overrides.ctxcp {
            Some(v) => Some(v),
            None => old(config).ctxcp,
        },
        final(config).use_jinja == match overrides.use_jinja {
            Some(v) => v,
            None => old(config).use_jinja,
        },
        final(config).reasoning_mode@ == match overrides.reasoning_mode {
            Some(v) => v@,
            None => old(config).reasoning_mode@,
        },
        final(config).template_mode@ == match overrides.template_mode {
            Some(v) => v@,
            None => old(config).template_mode@,
        },
        opt_view(final(config).template_name) == match overrides.template_name {
            Some(v) => Some(v@),
            None => opt_view(old(config).template_name),
        },
        opt_view(final(config).custom_template_path) == match overrides.custom_template_path {
            Some(v) => Some(v@),
            None => opt_view(old(config).custom_template_path),
        },
        opt_view(final(config).chat_template_kwargs_json) == match overrides.chat_template_kwargs_json {
            Some(v) => Some(v@),
            None => opt_view(old(config).chat_template_kwargs_json),
        },
        strings_view(final(config).extra_args@) == match overrides.extra_args {
            Some(v) => strings_view(v@),
            None => strings_view(old(config).extra_args@),
        },
        final(config).gpu_layers == old(config).gpu_layers,
        final(config).parallel_slots == old(config).parallel_slots,
        final(config).backend_preference == old(config).backend_preference,
        final(config).model_load_timeout_secs == old(config).model_load_timeout_secs,
{
    match &overrides.fit_mode {
        Some(v) => config.fit_mode = v.clone(),
        None => {},
    }
    match overrides.cache_ram_mb {
        Some(v) => config.cache_ram_mb = Some(v),
        None => {},
    }
    match overrides.ctxcp {
        Some(v) => config.ctxcp = Some(v),
        None => {},
    }
    match overrides.use_jinja {
        Some(v) => config.use_jinja = v,
        None => {},
    }
    match &overrides.reasoning_mode {
        Some(v) => config.reasoning_mode = v.clone(),
        None => {},
    }
    match &overrides.template_mode {
        Some(v) => config.template_mode = v.clone(),
        None => {},
    }
    match &overrides.template_name {
        Some(v) => config.template_name = Some(v.clone()),
        None => {},
    }
    match &overrides.custom_template_path {
        Some(v) => config.custom_template_path = Some(v.clone()),
        None => {},
    }
    match &overrides.chat_template_kwargs_json {
        Some(v) => config.chat_template_kwargs_json = Some(v.clone()),
        None => {},
    }
    match &overrides.extra_args {
        Some(v) => config.extra_args = copy_strings(v),
        None => {},
    }
}

// ---------------------------------------------------------------------------
// Chat template selection
// ---------------------------------------------------------------------------

/// What a model's Hugging Face origin says about its chat template.
#[derive(Clone, Debug)]
pub struct HfModelMetadata {
    pub repo_id: Option<String>,
    pub file: Option<String>,
    pub template_path: Option<String>,
    pub has_repo_template: bool,
    pub supports_vision: Option<bool>,
}

/// The chat template a launch uses: its mode, where it comes from, the
/// template file, the built-in template's name, and whether Jinja
/// templating is on.
#[derive(Clone, Debug, PartialEq, Eq)]
pub struct TemplateSelection {
    pub mode: String,
    pub source: Option<String>,
    pub file: Option<String>,
    pub name: Option<String>,
    pub use_jinja: bool,
}

pub ghost struct SelectionModel {
    pub mode: Seq<char>,
    pub source: Option<Seq<char>>,
    pub file: Option<Seq<char>>,
    pub name: Option<Seq<char>>,
    pub use_jinja: bool,
}

impl View for TemplateSelection {
    type V = SelectionModel;

    open spec fn view(&self) -> SelectionModel {
        SelectionModel {
            mode: self.mode@,
            source: opt_view(self.source),
            file: opt_view(self.file),
            name: opt_view(self.name),
            use_jinja: self.use_jinja,
        }
    }
}

/// How the template is chosen: at once, or after the repository's template
/// is fetched into the cache.
#[derive(Clone, Debug, PartialEq, Eq)]
pub enum TemplatePlan {
    Ready(TemplateSelection),
    FetchRepo { repo_id: String, template_path: String },
}

pub ghost enum PlanModel {
    Ready(SelectionModel),
    FetchRepo(Seq<char>, Seq<char>),
}

impl View for TemplatePlan {
    type V = PlanModel;

    open spec fn view(&self) -> PlanModel {
        match self {
            TemplatePlan::Ready(s) => PlanModel::Ready(s@),
            TemplatePlan::FetchRepo { repo_id, template_path } => PlanModel::FetchRepo(repo_id@, template_path@),
        }
    }
}

/// A text setting, trimmed, when not blank.
pub open spec fn non_blank_trimmed(o: Option<Seq<char>>) -> Option<Seq<char>> {
    match o {
        Some(v) => if trim(v).len() > 0 {
            Some(trim(v))
        } else {
            None
        },
        None => None,
    }
}

/// A text setting as given, when not blank.
pub open spec fn non_blank(o: Option<Seq<char>>) -> Option<Seq<char>> {
    match o {
        Some(v) => if trim(v).len() > 0 {
            Some(v)
        } else {
            None
        },
        None => None,
    }
}

/// The repository and template file of a model from Hugging Face whose
/// repository has a chat template.
pub open spec fn repo_template(meta: Option<(Option<Seq<char>>, Option<Seq<char>>, bool)>) -> Option<(Seq<char>, Seq<char>)> {
    match meta {
        Some((repo, path, has)) => match non_blank(repo) {
            Some(r) => if has || path is Some {
                Some(
                    (
                        r,
                        match non_blank(path) {
                            Some(p) => p,
                            None => "chat_template.jinja"@,
                        },
                    ),
                )
            } else {
                None
            },
            None => None,
        },
        None => None,
    }
}

/// The template plan. A configured custom template file wins if it
/// exists; then, unless the built-in mode is requested, the repository's
/// template of a model from Hugging Face; otherwise the built-in template,
/// named or the GGUF's own.
pub open spec fn template_plan(
    template_mode: Seq<char>,
    custom_template_path: Option<Seq<char>>,
    use_jinja: bool,
    template_name: Option<Seq<char>>,
    meta: Option<(Option<Seq<char>>, Option<Seq<char>>, bool)>,
    custom_exists: bool,
) -> PlanModel {
    let mode = unicode_lowercase(trim(template_mode));
    let custom = non_blank_trimmed(custom_template_path);
    if custom is Some && custom_exists {
        PlanModel::Ready(
            SelectionModel {
                mode: "custom"@,
                source: Some("custom:"@ + custom->0),
                file: custom,
                name: None,
                use_jinja: use_jinja || mode == "custom"@,
            },
        )
    } else if mode != "builtin"@ && repo_template(meta) is Some {
        match repo_template(meta) {
            Some((r, p)) => PlanModel::FetchRepo(r, p),
            None => PlanModel::FetchRepo(seq![], seq![]),
        }
    } else {
        let name = non_blank_trimmed(template_name);
        PlanModel::Ready(
            SelectionModel {
                mode: "builtin"@,
                source: Some(
                    match name {
                        Some(n) => "builtin:"@ + n,
                        None => if use_jinja {
                            "gguf:embedded-jinja"@
                        } else {
                            "builtin:fallback"@
                        },
                    },
                ),
                file: None,
                name,
                use_jinja,
            },
        )
    }
}

pub open spec fn meta_view(m: Option<&HfModelMetadata>) -> Option<(Option<Seq<char>>, Option<Seq<char>>, bool)> {
    match m {
        Some(x) => Some((opt_view(x.repo_id), opt_view(x.template_path), x.has_repo_template)),
        None => None,
    }
}

fn non_blank_trimmed_exec(o: &Option<String>) -> (r: Option<String>)
    ensures
        opt_view(r) == non_blank_trimmed(opt_view(*o)),
{
    match o {
        Some(v) => {
            let t = trim_str(v.as_str());
            if t.len() > 0 {
                Some(string_of(&t))
            } else {
                None
            }
        },
        None => None,
    }
}

fn is_blank(s: &str) -> (b: bool)
    ensures
        b == (trim(s@).len() == 0),
{
    trim_str(s).len() == 0
}

/// Choose the chat template for a launch, given whether the configured
/// custom template file (trimmed) exists.
pub fn plan_template_selection(config: &ProcessConfig, meta: Option<&HfModelMetadata>, custom_exists: bool) -> (p: TemplatePlan)
    ensures
        p@ == template_plan(
            config.template_mode@,
            opt_view(config.custom_template_path),
            config.use_jinja,
            opt_view(config.template_name),
            meta_view(meta),
            custom_exists,
        ),
{
    let mode = chars_of(to_lowercase(string_of(&trim_str(config.template_mode.as_str())).as_str()).as_str());
    let custom = non_blank_trimmed_exec(&config.custom_template_path);
    match &custom {
        Some(c) => {
            if custom_exists {
                let jinja = config.use_jinja || chars_equal(&mode, &chars_of("custom"));
                return TemplatePlan::Ready(
                    TemplateSelection {
                        mode: "custom".to_string(),
                        source: Some(cat("custom:", c.as_str())),
                        file: Some(c.clone()),
                        name: None,
                        use_jinja: jinja,
                    },
                );
            }
        },
        None => {},
    }
    if !chars_equal(&mode, &chars_of("builtin")) {
        match meta {
            Some(m) => {
                match &m.repo_id {
                    Some(repo) => {
                        if !is_blank(repo.as_str()) && (m.has_repo_template || m.template_path.is_some()) {
                            let path = match &m.template_path {
                                Some(p) => if !is_blank(p.as_str()) {
                                    p.clone()
                                } else {
                                    "chat_template.jinja".to_string()
                                },
                                None => "chat_template.jinja".to_string(),
                            };
                            return TemplatePlan::FetchRepo { repo_id: repo.clone(), template_path: path };
                        }
                    },
                    None => {},
                }
            },
            None => {},
        }
    }
    let name = non_blank_trimmed_exec(&config.template_name);
    let source = match &name {
        Some(n) => cat("builtin:", n.as_str()),
        None => if config.use_jinja {
            "gguf:embedded-jinja".to_string()
        } else {
            "builtin:fallback".to_string()
        },
    };
    TemplatePlan::Ready(
        TemplateSelection {
            mode: "builtin".to_string(),
            source: Some(source),
            file: None,
            name,
            use_jinja: config.use_jinja,
        },
    )
}

/// The selection once the repository's template is in the cache: Jinja
/// templating from that file.
pub fn repo_template_selection(repo_id: &str, template_path: &str, cached_path: String) -> (s: TemplateSelection)
    ensures
        s@ == (SelectionModel {
            mode: "repo"@,
            source: Some("hf:"@ + repo_id@ + "/"@ + template_path@),
            file: Some(cached_path@),
            name: None,
            use_jinja: true,
        }),
{
    let source = cat3(cat("hf:", repo_id).as_str(), "/", template_path);
    TemplateSelection { mode: "repo".to_string(), source: Some(source), file: Some(cached_path), name: None, use_jinja: true }
}

// ---------------------------------------------------------------------------
// Reusing the running server
// ---------------------------------------------------------------------------

/// The last path component after `sep` (the whole path without one).
pub open spec fn last_component(path: Seq<char>, sep: char) -> Seq<char> {
    split_on(path, sep).last()
}

/// The launch settings a load asks for, as compared with the last launch.
pub struct EffectiveLaunch {
    pub model_filename: String,
    pub context_size: Option<u32>,
    pub template_mode: String,
    pub template_source: Option<String>,
    pub template_name: Option<String>,
    pub template_path: Option<String>,
    pub chat_template_kwargs_json: Option<String>,
    pub fit_mode: Option<String>,
    pub cache_ram_mb: Option<u32>,
    pub ctxcp: Option<u32>,
    pub use_jinja: bool,
    pub reasoning_mode: Option<String>,
    pub extra_args: Vec<String>,
}

/// The last launch serves the request: its model is the requested file
/// (by path, by last path component, or by Hugging Face file), every
/// template, cache and reasoning setting is the same, and its arguments
/// end with the requested extra arguments.
pub open spec fn launch_serves(p: LaunchPreview, e: EffectiveLaunch, sep: char) -> bool {
    let model = e.model_filename@;
    let model_ok = names_agree(p.model_path@, model) || names_agree(last_component(p.model_path@, sep), model)
        || (p.hf_file matches Some(f) && names_agree(f@, model));
    let args = strings_view(p.args@);
    let extra = strings_view(e.extra_args@);
    &&& model_ok
    &&& p.context_size == e.context_size
    &&& p.template_mode@ == e.template_mode@
    &&& opt_view(p.template_source) == opt_view(e.template_source)
    &&& opt_view(p.template_name) == opt_view(e.template_name)
    &&& opt_view(p.template_path) == opt_view(e.template_path)
    &&& opt_view(p.chat_template_kwargs_json) == opt_view(e.chat_template_kwargs_json)
    &&& opt_view(p.fit_mode) == opt_view(e.fit_mode)
    &&& p.cache_ram_mb == e.cache_ram_mb
    &&& p.ctxcp == e.ctxcp
    &&& p.use_jinja == e.use_jinja
    &&& opt_view(p.reasoning_mode) == opt_view(e.reasoning_mode)
    &&& args.len() >= extra.len()
    &&& args.skip(args.len() - extra.len()) == extra
}

fn same(a: &str, b: &str) -> (r: bool)
    ensures
        r == (a@ == b@),
{
    chars_equal(&chars_of(a), &chars_of(b))
}

fn same_opt(a: &Option<String>, b: &Option<String>) -> (r: bool)
    ensures
        r == (opt_view(*a) == opt_view(*b)),
{
    match (a, b) {
        (Some(x), Some(y)) => same(x.as_str(), y.as_str()),
        (None, None) => true,
        _ => false,
    }
}

/// Does the last launch serve the request? `separator` is the platform's
/// path separator.
pub fn preview_matches_effective_launch(preview: &LaunchPreview, request: &EffectiveLaunch, separator: char) -> (b: bool)
    ensures
        b == launch_serves(*preview, *request, separator),
{
    let model = request.model_filename.as_str();
    let pieces = split_chars(&chars_of(preview.model_path.as_str()), separator);
    proof {
        lemma_split_on_len(preview.model_path@, separator);
    }
    let last = string_of(&pieces[pieces.len() - 1]);
    let by_file = match &preview.hf_file {
        Some(f) => names_match(f.as_str(), model),
        None => false,
    };
    let model_ok = names_match(preview.model_path.as_str(), model) || names_match(last.as_str(), model) || by_file;
    if !(model_ok && preview.context_size == request.context_size && same(
        preview.template_mode.as_str(),
        request.template_mode.as_str(),
    ) && same_opt(&preview.template_source, &request.template_source) && same_opt(
        &preview.template_name,
        &request.template_name,
    ) && same_opt(&preview.template_path, &request.template_path) && same_opt(
        &preview.chat_template_kwargs_json,
        &request.chat_template_kwargs_json,
    ) && same_opt(&preview.fit_mode, &request.fit_mode) && preview.cache_ram_mb == request.cache_ram_mb
        && preview.ctxcp == request.ctxcp && preview.use_jinja == request.use_jinja && same_opt(
        &preview.reasoning_mode,
        &request.reasoning_mode,
    )) {
        return false;
    }
    let n = request.extra_args.len();
    let len = preview.args.len();
    if len < n {
        return false;
    }
    let ghost args = strings_view(preview.args@);
    let ghost extra = strings_view(request.extra_args@);
    let mut i: usize = 0;
    while i < n
        invariant
            n == extra.len(),
            len == args.len(),
            n <= len,
            i <= n,
            args == strings_view(preview.args@),
            extra == strings_view(request.extra_args@),
            forall|k: int| 0 <= k < i ==> args[len - n + k] == extra[k],
        decreases n - i,
    {
        if !same(preview.args[len - n + i].as_str(), request.extra_args[i].as_str()) {
            assert(args.skip(len - n)[i as int] != extra[i as int]);
            return false;
        }
        i += 1;
    }
    assert(args.skip(len - n) =~= extra);
    true
}

// ---------------------------------------------------------------------------
// Waiting for the server
// ---------------------------------------------------------------------------

/// One health poll's outcome: the server is ready, or the load goes on
/// with a stage, a message and a progress in thousandths.
#[derive(Clone, Debug, PartialEq, Eq)]
pub enum HealthStep {
    Ready,
    Waiting { stage: String, message: String, progress_permille: u32 },
}

pub ghost enum HealthModel {
    Ready,
    Waiting(Seq<char>, Seq<char>, u32),
}

impl View for HealthStep {
    type V = HealthModel;

    open spec fn view(&self) -> HealthModel {
        match self {
            HealthStep::Ready => HealthModel::Ready,
            HealthStep::Waiting { stage, message, progress_permille } => HealthModel::Waiting(
                stage@,
                message@,
                *progress_permille,
            ),
        }
    }
}

pub open spec fn elapsed_note(secs: u64) -> Seq<char> {
    " ("@ + decimal(secs as nat) + "s)"@
}

/// Loading progress after `secs` seconds: from 10% up by one point a second, at most 90%.
pub open spec fn loading_permille(secs: u64) -> u32 {
    if secs >= 80 { 900 } else { (100 + 10 * secs) as u32 }
}

/// A health poll's outcome from the server's answer (status code, its text
/// and the body), or from no answer at all, `secs` seconds into the load.
pub open spec fn health_outcome(answer: Option<(u16, Seq<char>, Seq<char>)>, secs: u64) -> HealthModel {
    match answer {
        None => HealthModel::Waiting(
            "starting"@,
            "Waiting for llama-server to respond..."@ + elapsed_note(secs),
            if secs >= 14 { 90 } else { (20 + 5 * secs) as u32 },
        ),
        Some((code, text, body)) => if 200 <= code <= 299 {
            if contains_seq(body, "ok"@) || contains_seq(body, "\"status\":\"ok\""@) {
                HealthModel::Ready
            } else if contains_seq(body, "loading"@) {
                HealthModel::Waiting(
                    "loading"@,
                    "Loading model into GPU memory..."@ + elapsed_note(secs),
                    loading_permille(secs),
                )
            } else {
                HealthModel::Ready
            }
        } else if code == 503 {
            HealthModel::Waiting("loading"@, "Loading model weights..."@ + elapsed_note(secs), loading_permille(secs))
        } else {
            HealthModel::Waiting(
                "starting"@,
                "Waiting for llama-server (HTTP "@ + text + ")..."@ + elapsed_note(secs),
                80,
            )
        },
    }
}

pub open spec fn answer_view(a: Option<(u16, String, String)>) -> Option<(u16, Seq<char>, Seq<char>)> {
    match a {
        Some((c, t, b)) => Some((c, t@, b@)),
        None => None,
    }
}

fn with_elapsed(head: &str, secs: u64) -> (r: String)
    ensures
        r@ == head@ + elapsed_note(secs),
{
    let note = cat3(" (", string_of(&decimal_chars(secs)).as_str(), "s)");
    cat(head, note.as_str())
}

/// Judge one health poll.
pub fn health_step(answer: Option<(u16, String, String)>, elapsed_secs: u64) -> (h: HealthStep)
    ensures
        h@ == health_outcome(answer_view(answer), elapsed_secs),
{
    let loading: u32 = if elapsed_secs >= 80 { 900 } else { (100 + 10 * elapsed_secs) as u32 };
    match answer {
        None => {
            let p: u32 = if elapsed_secs >= 14 { 90 } else { (20 + 5 * elapsed_secs) as u32 };
            HealthStep::Waiting {
                stage: "starting".to_string(),
                message: with_elapsed("Waiting for llama-server to respond...", elapsed_secs),
                progress_permille: p,
            }
        },
        Some((code, text, body)) => {
            if 200 <= code && code <= 299 {
                let b = chars_of(body.as_str());
                if contains_chars(&b, &chars_of("ok")) || contains_chars(&b, &chars_of("\"status\":\"ok\"")) {
                    HealthStep::Ready
                } else if contains_chars(&b, &chars_of("loading")) {
                    HealthStep::Waiting {
                        stage: "loading".to_string(),
                        message: with_elapsed("Loading model into GPU memory...", elapsed_secs),
                        progress_permille: loading,
                    }
                } else {
                    HealthStep::Ready
                }
            } else if code == 503 {
                HealthStep::Waiting {
                    stage: "loading".to_string(),
                    message: with_elapsed("Loading model weights...", elapsed_secs),
                    progress_permille: loading,
                }
            } else {
                let head = cat3("Waiting for llama-server (HTTP ", text.as_str(), ")...");
                HealthStep::Waiting {
                    stage: "starting".to_string(),
                    message: with_elapsed(head.as_str(), elapsed_secs),
                    progress_permille: 80,
                }
            }
        },
    }
}

/// The server process is checked for an early exit on every 13th poll.
pub fn should_check_exit(attempt: u32) -> (b: bool)
    ensures
        b == (attempt % 13 == 0),
{
    attempt % 13 == 0
}

/// The error for a server that exited while loading: its last ten stderr
/// lines, or a note that there were none.
pub open spec fn crash_text(stderr: Seq<Seq<char>>) -> Seq<char> {
    let tail = if stderr.len() > 10 { stderr.skip(stderr.len() - 10) } else { stderr };
    let joined = join_with(tail, "\n"@);
    "llama-server crashed on startup.\n"@ + if joined.len() == 0 {
        "No stderr output captured."@
    } else {
        joined
    }
}

pub fn crash_message(stderr: &Vec<String>) -> (m: String)
    ensures
        m@ == crash_text(strings_view(stderr@)),
{
    let ghost all = strings_view(stderr@);
    let start: usize = if stderr.len() > 10 { stderr.len() - 10 } else { 0 };
    let mut tail: Vec<Vec<char>> = Vec::new();
    let mut i: usize = start;
    while i < stderr.len()
        invariant
            start <= i <= stderr@.len(),
            all == strings_view(stderr@),
            tail@.map_values(|p: Vec<char>| p@) == all.subrange(start as int, i as int),
        decreases stderr@.len() - i,
    {
        let ghost before = tail@;
        let line = chars_of(stderr[i].as_str());
        assert(line@ == all[i as int]);
        tail.push(line);
        assert(tail@ == before.push(line));
        assert(tail@.map_values(|p: Vec<char>| p@) =~= before.map_values(|p: Vec<char>| p@).push(line@));
        i += 1;
        assert(tail@.map_values(|p: Vec<char>| p@) =~= all.subrange(start as int, i as int));
    }
    let ghost expected = if all.len() > 10 { all.skip(all.len() - 10) } else { all };
    assert(all.subrange(start as int, all.len() as int) =~= expected);
    let joined = join_chars(tail.as_slice(), &chars_of("\n"));
    let body = if joined.len() == 0 { chars_of("No stderr output captured.") } else { joined };
    string_of(&concat_chars(&chars_of("llama-server crashed on startup.\n"), &body))
}

/// The error for a server that did not become healthy in time.
pub fn health_timeout_message(timeout_secs: u64) -> (m: String)
    ensures
        m@ == "llama-server did not become healthy within "@ + decimal(timeout_secs as nat) + "s"@,
{
    cat3("llama-server did not become healthy within ", string_of(&decimal_chars(timeout_secs)).as_str(), "s")
}

/// The last `n` lines of `lines` (all of them when there are fewer).
pub open spec fn last_lines(lines: Seq<Seq<char>>, n: nat) -> Seq<Seq<char>> {
    if lines.len() > n { lines.skip(lines.len() - n) } else { lines }
}

fn last_lines_joined(lines: &Vec<String>, n: usize) -> (r: Vec<char>)
    ensures
        r@ == join_with(last_lines(strings_view(lines@), n as nat), "\n"@),
{
    let ghost all = strings_view(lines@);
    let start: usize = if lines.len() > n { lines.len() - n } else { 0 };
    let mut tail: Vec<Vec<char>> = Vec::new();
    let mut i: usize = start;
    while i < lines.len()
        invariant
            start <= i <= lines@.len(),
            all == strings_view(lines@),
            tail@.map_values(|p: Vec<char>| p@) == all.subrange(start as int, i as int),
        decreases lines@.len() - i,
    {
        let ghost before = tail@;
        let line = chars_of(lines[i].as_str());
        assert(line@ == all[i as int]);
        tail.push(line);
        assert(tail@.map_values(|p: Vec<char>| p@) =~= before.map_values(|p: Vec<char>| p@).push(line@));
        i += 1;
        assert(tail@.map_values(|p: Vec<char>| p@) =~= all.subrange(start as int, i as int));
    }
    assert(all.subrange(start as int, all.len() as int) =~= last_lines(all, n as nat));
    join_chars(tail.as_slice(), &chars_of("\n"))
}

/// What a benchmark reports of a crashed server: its exit status, where
/// the crash report went, and its last 80 stderr lines (or a note that
/// there were none).
pub open spec fn benchmark_crash_text(
    stderr: Seq<Seq<char>>,
    exit_status: Option<Seq<char>>,
    report_path: Option<Seq<char>>,
) -> Seq<char> {
    let tail = join_with(last_lines(stderr, 80), "\n"@);
    "Exit: "@ + match exit_status { Some(e) => e, None => "unknown"@ } + ". Crash report: "@
        + match report_path { Some(p) => p, None => "not written"@ } + "\n"@ + if trim(tail).len() == 0 {
        "No llama-server stderr was captured."@
    } else {
        tail
    }
}

/// The crash details a benchmark shows.
pub fn benchmark_crash_tail(stderr: &Vec<String>, exit_status: Option<&str>, report_path: Option<&str>) -> (r: String)
    ensures
        r@ == benchmark_crash_text(
            strings_view(stderr@),
            match exit_status { Some(e) => Some(e@), None => None },
            match report_path { Some(p) => Some(p@), None => None },
        ),
{
    let tail = last_lines_joined(stderr, 80);
    let exit = match exit_status {
        Some(e) => chars_of(e),
        None => chars_of("unknown"),
    };
    let report = match report_path {
        Some(p) => chars_of(p),
        None => chars_of("not written"),
    };
    let body = if trim_chars(&tail).len() == 0 {
        chars_of("No llama-server stderr was captured.")
    } else {
        tail
    };
    let mut r = concat_chars(&chars_of("Exit: "), &exit);
    r = concat_chars(&r, &chars_of(". Crash report: "));
    r = concat_chars(&r, &report);
    r = concat_chars(&r, &chars_of("\n"));
    r = concat_chars(&r, &body);
    string_of(&r)
}

/// The error a benchmark turn ends with when the server crashed.
pub fn benchmark_crash_error(details: &str) -> (r: String)
    ensures
        r@ == "llama-server crashed during benchmark.\n"@ + details@,
{
    string_of(&concat_chars(&chars_of("llama-server crashed during benchmark.\n"), &chars_of(details)))
}

} // verus!

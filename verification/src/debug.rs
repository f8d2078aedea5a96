//! The in-app API console: which internal endpoint a request reaches.

use vstd::prelude::*;
use crate::encoding::{percent_decode_lossy, percent_decoded, utf8_lossy};
use crate::engine::kwargs::{json_read, parse_json_object};
use crate::text::{
    ascii_lower, ascii_lower_chars, chars_equal, chars_of, concat_chars, contains_chars,
    contains_seq, decimal, decimal_chars, index_of_char, index_of_char_exec, path_file_name, plain_name_of, verbatim_prefixed,
    slice_chars, split_chars, split_on, starts_with, starts_with_chars, string_of, to_uppercase,
    trim, trim_str, unicode_uppercase,
};

verus! {

broadcast use vstd::string::group_string_axioms;

/// A request typed into the API console.
#[derive(Clone, Debug)]
pub struct DebugApiRequest {
    pub method: String,
    pub path: String,
    pub body: Option<String>,
}

/// What the endpoint answered.
#[derive(Clone, Debug)]
pub struct DebugApiResponse {
    pub status: u16,
    pub headers: Vec<(String, String)>,
    pub body: String,
    pub transport: String,
}

/// Settings to render a prompt with, without loading the model.
#[derive(Clone, Debug)]
pub struct TemplateDryRunRequest {
    pub model_name: Option<String>,
    pub use_jinja: bool,
    pub template_mode: String,
    pub template_name: Option<String>,
    pub custom_template_path: Option<String>,
    pub chat_template_kwargs_json: Option<String>,
    pub reasoning_mode: String,
    pub parallel_slots: u32,
}

/// The rendered prompt and what was checked about it.
#[derive(Clone, Debug)]
pub struct TemplateDryRunReport {
    pub model_name: String,
    pub family: String,
    pub renderer: String,
    pub tool_format: String,
    pub prompt: String,
    pub checks: Vec<String>,
    pub warnings: Vec<String>,
}

/// The internal endpoint a console request goes to.
#[derive(Clone, Debug, PartialEq, Eq)]
pub enum DebugRoute {
    Health,
    Models,
    ModelStats,
    ModelStatsFor,
    ContextStatus,
    RuntimeStatus,
    RuntimeDoctor,
    /// The `model` query value, percent-decoded.
    DebugProfile(Option<String>),
    Sessions,
    LoadModel,
    UnloadModel,
    ChatCompletions,
    Responses,
    /// One model by name, percent-decoded.
    Model(String),
    NotFound,
}

pub ghost enum RouteModel {
    Health,
    Models,
    ModelStats,
    ModelStatsFor,
    ContextStatus,
    RuntimeStatus,
    RuntimeDoctor,
    DebugProfile(Option<Seq<char>>),
    Sessions,
    LoadModel,
    UnloadModel,
    ChatCompletions,
    Responses,
    Model(Seq<char>),
    NotFound,
}

pub open spec fn route_view(r: DebugRoute) -> RouteModel {
    match r {
        DebugRoute::Health => RouteModel::Health,
        DebugRoute::Models => RouteModel::Models,
        DebugRoute::ModelStats => RouteModel::ModelStats,
        DebugRoute::ModelStatsFor => RouteModel::ModelStatsFor,
        DebugRoute::ContextStatus => RouteModel::ContextStatus,
        DebugRoute::RuntimeStatus => RouteModel::RuntimeStatus,
        DebugRoute::RuntimeDoctor => RouteModel::RuntimeDoctor,
        DebugRoute::DebugProfile(m) => RouteModel::DebugProfile(
            match m {
                Some(s) => Some(s@),
                None => None,
            },
        ),
        DebugRoute::Sessions => RouteModel::Sessions,
        DebugRoute::LoadModel => RouteModel::LoadModel,
        DebugRoute::UnloadModel => RouteModel::UnloadModel,
        DebugRoute::ChatCompletions => RouteModel::ChatCompletions,
        DebugRoute::Responses => RouteModel::Responses,
        DebugRoute::Model(s) => RouteModel::Model(s@),
        DebugRoute::NotFound => RouteModel::NotFound,
    }
}

/// A percent-encoded URL part as text.
pub open spec fn url_decoded(v: Seq<char>) -> Seq<char> {
    utf8_lossy(percent_decoded(vstd::utf8::encode_utf8(v)))
}

/// The query of a path: what follows the first `?`, or nothing.
pub open spec fn query_of(path: Seq<char>) -> Seq<char> {
    match index_of_char(path, '?') {
        Some(i) => path.skip(i + 1),
        None => Seq::<char>::empty(),
    }
}

/// The value of the first `model=` pair of a query.
pub open spec fn model_param(pairs: Seq<Seq<char>>, k: int) -> Option<Seq<char>>
    decreases pairs.len() - k,
{
    if k < 0 || k >= pairs.len() {
        None
    } else {
        match index_of_char(pairs[k], '=') {
            Some(i) => if pairs[k].take(i) == "model"@ {
                Some(pairs[k].skip(i + 1))
            } else {
                model_param(pairs, k + 1)
            },
            None => model_param(pairs, k + 1),
        }
    }
}

/// Where a console request with method `m` (uppercased) and path `p`
/// (trimmed) goes.
pub open spec fn route_for(method: Seq<char>, path: Seq<char>) -> RouteModel {
    let m = unicode_uppercase(method);
    let p = trim(path);
    if m == "GET"@ && p == "/v1/health"@ {
        RouteModel::Health
    } else if m == "GET"@ && p == "/v1/models"@ {
        RouteModel::Models
    } else if m == "GET"@ && p == "/v1/models/stats"@ {
        RouteModel::ModelStats
    } else if m == "POST"@ && p == "/v1/models/stats"@ {
        RouteModel::ModelStatsFor
    } else if m == "GET"@ && p == "/v1/context/status"@ {
        RouteModel::ContextStatus
    } else if m == "GET"@ && p == "/v1/runtime/status"@ {
        RouteModel::RuntimeStatus
    } else if m == "GET"@ && p == "/v1/runtime/doctor"@ {
        RouteModel::RuntimeDoctor
    } else if m == "GET"@ && starts_with(p, "/v1/debug/profile"@) {
        RouteModel::DebugProfile(
            match model_param(split_on(query_of(p), '&'), 0) {
                Some(v) => Some(url_decoded(v)),
                None => None,
            },
        )
    } else if m == "GET"@ && p == "/v1/sessions"@ {
        RouteModel::Sessions
    } else if m == "POST"@ && p == "/v1/models/load"@ {
        RouteModel::LoadModel
    } else if m == "POST"@ && p == "/v1/models/unload"@ {
        RouteModel::UnloadModel
    } else if m == "POST"@ && p == "/v1/chat/completions"@ {
        RouteModel::ChatCompletions
    } else if m == "POST"@ && p == "/v1/responses"@ {
        RouteModel::Responses
    } else if m == "GET"@ && starts_with(p, "/v1/models/"@) && p.len() > 11 && !p.skip(11).contains('/') {
        RouteModel::Model(url_decoded(p.skip(11)))
    } else {
        RouteModel::NotFound
    }
}

fn model_param_exec(query: &[char]) -> (r: Option<String>)
    ensures
        match r {
            Some(s) => model_param(split_on(query@, '&'), 0) == Some(s@),
            None => model_param(split_on(query@, '&'), 0) is None,
        },
{
    let pairs = split_chars(query, '&');
    let ghost pv = pairs@.map_values(|p: Vec<char>| p@);
    let key = chars_of("model");
    let mut k: usize = 0;
    while k < pairs.len()
        invariant
            k <= pairs.len(),
            pv == pairs@.map_values(|p: Vec<char>| p@),
            pv == split_on(query@, '&'),
            key@ == "model"@,
            model_param(pv, 0) == model_param(pv, k as int),
        decreases pairs.len() - k,
    {
        assert(pv[k as int] == pairs@[k as int]@);
        let pair: &[char] = pairs[k].as_slice();
        match index_of_char_exec(pair, '=') {
            Some(i) => {
                proof {
                    crate::text::lemma_index_of_char(pair@, '=');
                }
                assert(i < pair.len());
                let name = slice_chars(pair, 0, i);
                assert(name@ =~= pair@.take(i as int));
                if chars_equal(&name, &key) {
                    let value = slice_chars(pair, i + 1, pair.len());
                    assert(value@ =~= pair@.skip(i + 1));
                    return Some(string_of(&value));
                }
            },
            None => {},
        }
        k += 1;
    }
    None
}

fn is(v: &[char], lit: &str) -> (b: bool)
    ensures
        b == (v@ == lit@),
{
    chars_equal(v, &chars_of(lit))
}

/// Route a console request to an internal endpoint.
pub fn route_debug_request(method: &str, path: &str) -> (r: DebugRoute)
    ensures
        route_view(r) == route_for(method@, path@),
{
    let m = chars_of(&to_uppercase(method));
    let p = trim_str(path);
    let get = is(&m, "GET");
    let post = is(&m, "POST");
    if get && is(&p, "/v1/health") {
        DebugRoute::Health
    } else if get && is(&p, "/v1/models") {
        DebugRoute::Models
    } else if get && is(&p, "/v1/models/stats") {
        DebugRoute::ModelStats
    } else if post && is(&p, "/v1/models/stats") {
        DebugRoute::ModelStatsFor
    } else if get && is(&p, "/v1/context/status") {
        DebugRoute::ContextStatus
    } else if get && is(&p, "/v1/runtime/status") {
        DebugRoute::RuntimeStatus
    } else if get && is(&p, "/v1/runtime/doctor") {
        DebugRoute::RuntimeDoctor
    } else if get && starts_with_chars(&p, &chars_of("/v1/debug/profile")) {
        let query = match index_of_char_exec(&p, '?') {
            Some(i) => {
                proof {
                    crate::text::lemma_index_of_char(p@, '?');
                }
                assert(i < p.len());
                let q = slice_chars(&p, i + 1, p.len());
                assert(q@ =~= p@.skip(i + 1));
                q
            },
            None => Vec::new(),
        };
        assert(query@ =~= query_of(p@));
        DebugRoute::DebugProfile(
            match model_param_exec(&query) {
                Some(v) => Some(percent_decode_lossy(v.as_str())),
                None => None,
            },
        )
    } else if get && is(&p, "/v1/sessions") {
        DebugRoute::Sessions
    } else if post && is(&p, "/v1/models/load") {
        DebugRoute::LoadModel
    } else if post && is(&p, "/v1/models/unload") {
        DebugRoute::UnloadModel
    } else if post && is(&p, "/v1/chat/completions") {
        DebugRoute::ChatCompletions
    } else if post && is(&p, "/v1/responses") {
        DebugRoute::Responses
    } else {
        proof {
            reveal_strlit("/v1/models/");
        }
        if get && starts_with_chars(&p, &chars_of("/v1/models/")) && p.len() > 11 {
            let name = slice_chars(&p, 11, p.len());
            assert(name@ =~= p@.skip(11));
            let mut has_slash = false;
            let mut i: usize = 0;
            while i < name.len()
                invariant
                    i <= name.len(),
                    has_slash == (exists|j: int| 0 <= j < i && name@[j] == '/'),
                decreases name.len() - i,
            {
                if name[i] == '/' {
                    has_slash = true;
                }
                i += 1;
            }
            if !has_slash {
                return DebugRoute::Model(percent_decode_lossy(string_of(&name).as_str()));
            }
        }
        DebugRoute::NotFound
    }
}

// ---------------------------------------------------------------------------
// Template dry run
// ---------------------------------------------------------------------------

/// `{:?}` of a string: the text between double quotes, with characters
/// escaped as `str::escape_debug` does.
pub uninterp spec fn str_debug_text(s: Seq<char>) -> Seq<char>;

/// `format!("{:?}", s)` for a string slice.
#[verifier::external_body]
fn debug_quoted(s: &str) -> (r: String)
    ensures
        r@ == str_debug_text(s@),
{
    format!("{:?}", s)
}

/// The requested model name, trimmed, when it is not blank.
pub open spec fn requested_name(requested: Option<&str>) -> Option<Seq<char>> {
    match requested {
        Some(q) => if trim(q@).len() > 0 { Some(trim(q@)) } else { None },
        None => None,
    }
}

/// The model a dry run renders for: the requested name (trimmed), else the
/// loaded model, else the file name of the last launch's model, else
/// `Qwen3.6-27B-GGUF`.
pub fn dry_run_model_name(
    requested: Option<&str>,
    loaded: Option<&str>,
    last_launch_model_path: Option<&str>,
) -> (r: String)
    ensures
        requested_name(requested) matches Some(q) ==> r@ == q,
        requested_name(requested) is None ==> match loaded {
            Some(l) => r@ == l@,
            None => match last_launch_model_path {
                Some(p) => ((r@.len() > 0 && contains_seq(p@, r@) && (!verbatim_prefixed(p@)
                    ==> !r@.contains('/'))) || r@ == "Qwen3.6-27B-GGUF"@) && (plain_name_of(p@) matches Some(
                    n) ==> r@ == n),
                None => r@ == "Qwen3.6-27B-GGUF"@,
            },
        },
{
    if let Some(q) = requested {
        let t = trim_str(q);
        if t.len() > 0 {
            return string_of(&t);
        }
    }
    if let Some(l) = loaded {
        return l.to_string();
    }
    if let Some(p) = last_launch_model_path {
        if let Some(name) = path_file_name(p) {
            return name;
        }
    }
    "Qwen3.6-27B-GGUF".to_string()
}

/// Checks that passed and warnings, in the order they were made.
pub ghost struct DryRunNotes {
    pub checks: Seq<Seq<char>>,
    pub warnings: Seq<Seq<char>>,
}

pub open spec fn check(m: Seq<char>) -> DryRunNotes {
    DryRunNotes { checks: seq![m], warnings: Seq::empty() }
}

pub open spec fn warn(m: Seq<char>) -> DryRunNotes {
    DryRunNotes { checks: Seq::empty(), warnings: seq![m] }
}

pub open spec fn no_notes() -> DryRunNotes {
    DryRunNotes { checks: Seq::empty(), warnings: Seq::empty() }
}

pub open spec fn then(a: DryRunNotes, b: DryRunNotes) -> DryRunNotes {
    DryRunNotes { checks: a.checks + b.checks, warnings: a.warnings + b.warnings }
}

pub open spec fn looks_qwen(model: Seq<char>) -> bool {
    contains_seq(ascii_lower(model), "qwen"@)
}

pub open spec fn looks_gemma(model: Seq<char>) -> bool {
    contains_seq(ascii_lower(model), "gemma"@)
}

pub open spec fn jinja_notes(model: Seq<char>, use_jinja: bool) -> DryRunNotes {
    if use_jinja {
        check("Jinja rendering is enabled for llama.cpp launch."@)
    } else if looks_qwen(model) || looks_gemma(model) {
        warn(model + " looks template-sensitive but Use Jinja is disabled."@)
    } else {
        no_notes()
    }
}

pub open spec fn opt_seq(o: Option<String>) -> Option<Seq<char>> {
    match o {
        Some(s) => Some(s@),
        None => None,
    }
}

/// The custom template path, trimmed, when one is set.
pub open spec fn custom_path(req: TemplateDryRunRequest) -> Option<Seq<char>> {
    match req.custom_template_path {
        Some(p) => if trim(p@).len() > 0 { Some(trim(p@)) } else { None },
        None => None,
    }
}

pub open spec fn mode_notes(req: TemplateDryRunRequest, custom_exists: bool) -> DryRunNotes {
    let mode = ascii_lower(trim(req.template_mode@));
    if mode == "repo"@ {
        check("Template mode is repo."@)
    } else if mode == "builtin"@ {
        check(
            "Template mode is builtin"@ + match req.template_name {
                Some(n) => " ("@ + n@ + ")"@,
                None => Seq::empty(),
            } + "."@,
        )
    } else if mode == "custom"@ {
        match custom_path(req) {
            Some(p) => if custom_exists {
                check("Custom template exists: "@ + p + "."@)
            } else {
                warn("Custom template path does not exist: "@ + p + "."@)
            },
            None => warn("Template mode is custom but no custom template path is set."@),
        }
    } else if mode.len() == 0 {
        warn("Template mode is blank; launch will fall back to defaults."@)
    } else {
        warn("Template mode "@ + str_debug_text(mode) + " is not one of repo/custom/builtin."@)
    }
}

/// The kwargs text, trimmed (none counts as blank).
pub open spec fn kwargs_text(req: TemplateDryRunRequest) -> Seq<char> {
    match req.chat_template_kwargs_json {
        Some(k) => trim(k@),
        None => Seq::empty(),
    }
}

pub open spec fn qwen_notes(req: TemplateDryRunRequest) -> DryRunNotes {
    let reasoning = trim(req.reasoning_mode@);
    let kwargs = kwargs_text(req);
    then(
        then(
            if reasoning.len() == 0 {
                warn("Qwen launch has no explicit reasoning mode."@)
            } else {
                check("Qwen reasoning mode is "@ + reasoning + "."@)
            },
            if req.parallel_slots > 1 {
                warn(
                    "Qwen tool reliability is usually best with one slot; current setting is "@
                        + decimal(req.parallel_slots as nat) + "."@,
                )
            } else {
                check("Parallel slots set to 1 for Qwen tool reliability."@)
            },
        ),
        if kwargs.len() == 0 {
            warn(
                "Qwen launch has no chat_template_kwargs_json; thinking/tool behavior may depend on template defaults."@,
            )
        } else if json_read(kwargs) is Ok {
            check("Template kwargs JSON parses successfully."@)
        } else {
            warn("Template kwargs JSON is not valid JSON."@)
        },
    )
}

pub open spec fn prompt_notes(prompt: Seq<char>) -> DryRunNotes {
    then(
        if contains_seq(prompt, "<|im_start|>system"@) || contains_seq(prompt, "<|turn>system"@) {
            check("Rendered prompt contains a system turn marker."@)
        } else {
            warn("Rendered prompt did not include a recognizable system turn marker."@)
        },
        if contains_seq(prompt, "<|im_start|>assistant"@) || contains_seq(prompt, "<|turn>model"@) {
            check("Rendered prompt contains an assistant generation marker."@)
        } else {
            warn("Rendered prompt did not include a recognizable assistant generation marker."@)
        },
    )
}

/// Everything a dry run checks, in order: Jinja, the template mode, the
/// Qwen-specific settings (for a model whose name says Qwen), and the
/// markers in the rendered prompt.
pub open spec fn dry_run_notes(
    model: Seq<char>,
    req: TemplateDryRunRequest,
    custom_exists: bool,
    prompt: Seq<char>,
) -> DryRunNotes {
    then(
        then(
            then(jinja_notes(model, req.use_jinja), mode_notes(req, custom_exists)),
            if looks_qwen(model) { qwen_notes(req) } else { no_notes() },
        ),
        prompt_notes(prompt),
    )
}

pub open spec fn texts(v: Seq<String>) -> Seq<Seq<char>> {
    v.map_values(|s: String| s@)
}

/// Notes being written: checks and warnings so far.
struct NoteBook {
    checks: Vec<String>,
    warnings: Vec<String>,
}

impl NoteBook {
    spec fn notes(&self) -> DryRunNotes {
        DryRunNotes { checks: texts(self.checks@), warnings: texts(self.warnings@) }
    }

    fn check(&mut self, m: String)
        ensures
            final(self).notes() == then(old(self).notes(), check(m@)),
    {
        let ghost before = texts(self.checks@);
        self.checks.push(m);
        assert(texts(self.checks@) =~= before + seq![m@]);
        assert(texts(self.warnings@) =~= texts(old(self).warnings@) + Seq::<Seq<char>>::empty());
    }

    fn warn(&mut self, m: String)
        ensures
            final(self).notes() == then(old(self).notes(), warn(m@)),
    {
        let ghost before = texts(self.warnings@);
        self.warnings.push(m);
        assert(texts(self.warnings@) =~= before + seq![m@]);
        assert(texts(self.checks@) =~= texts(old(self).checks@) + Seq::<Seq<char>>::empty());
    }
}

proof fn lemma_then_assoc(a: DryRunNotes, b: DryRunNotes, c: DryRunNotes)
    ensures
        then(then(a, b), c) == then(a, then(b, c)),
{
    assert(then(then(a, b), c).checks =~= then(a, then(b, c)).checks);
    assert(then(then(a, b), c).warnings =~= then(a, then(b, c)).warnings);
}

proof fn lemma_then_none(a: DryRunNotes)
    ensures
        then(a, no_notes()) == a,
{
    assert(then(a, no_notes()).checks =~= a.checks);
    assert(then(a, no_notes()).warnings =~= a.warnings);
}

fn cat(parts: &[&str]) -> (r: Vec<char>)
    ensures
        parts.len() == 0 ==> r@ == Seq::<char>::empty(),
        parts.len() == 1 ==> r@ == parts[0]@,
        parts.len() == 2 ==> r@ == parts[0]@ + parts[1]@,
        parts.len() == 3 ==> r@ == parts[0]@ + parts[1]@ + parts[2]@,
{
    let mut r: Vec<char> = Vec::new();
    let mut i: usize = 0;
    while i < parts.len()
        invariant
            i <= parts.len(),
            i == 0 ==> r@ == Seq::<char>::empty(),
            i >= 1 ==> parts.len() >= 1,
            i == 1 ==> r@ == parts[0]@,
            i == 2 ==> r@ == parts[0]@ + parts[1]@,
            i == 3 ==> r@ == parts[0]@ + parts[1]@ + parts[2]@,
        decreases parts.len() - i,
    {
        r = concat_chars(&r, &chars_of(parts[i]));
        i += 1;
    }
    r
}

fn jinja_step(book: &mut NoteBook, model: &str, use_jinja: bool)
    ensures
        final(book).notes() == then(old(book).notes(), jinja_notes(model@, use_jinja)),
{
    let lower = ascii_lower_chars(&chars_of(model));
    if use_jinja {
        book.check("Jinja rendering is enabled for llama.cpp launch.".to_string());
    } else if contains_chars(&lower, &chars_of("qwen")) || contains_chars(&lower, &chars_of("gemma")) {
        book.warn(string_of(&cat(&[model, " looks template-sensitive but Use Jinja is disabled."])));
    } else {
        proof {
            lemma_then_none(book.notes());
        }
    }
}

fn mode_step(book: &mut NoteBook, req: &TemplateDryRunRequest, custom_exists: bool)
    ensures
        final(book).notes() == then(old(book).notes(), mode_notes(*req, custom_exists)),
{
    let mode = string_of(&ascii_lower_chars(&trim_str(req.template_mode.as_str())));
    let m = chars_of(mode.as_str());
    if chars_equal(&m, &chars_of("repo")) {
        book.check("Template mode is repo.".to_string());
    } else if chars_equal(&m, &chars_of("builtin")) {
        let named = match &req.template_name {
            Some(n) => cat(&[" (", n.as_str(), ")"]),
            None => Vec::new(),
        };
        let text = concat_chars(&concat_chars(&chars_of("Template mode is builtin"), &named), &chars_of("."));
        book.check(string_of(&text));
    } else if chars_equal(&m, &chars_of("custom")) {
        let path = match &req.custom_template_path {
            Some(p) => {
                let t = trim_str(p.as_str());
                if t.len() > 0 {
                    Some(string_of(&t))
                } else {
                    None
                }
            },
            None => None,
        };
        assert(opt_seq(path) == custom_path(*req));
        match path {
            Some(p) => {
                if custom_exists {
                    book.check(string_of(&cat(&["Custom template exists: ", p.as_str(), "."])));
                } else {
                    book.warn(string_of(&cat(&["Custom template path does not exist: ", p.as_str(), "."])));
                }
            },
            None => {
                book.warn("Template mode is custom but no custom template path is set.".to_string());
            },
        }
    } else if m.len() == 0 {
        book.warn("Template mode is blank; launch will fall back to defaults.".to_string());
    } else {
        let quoted = debug_quoted(mode.as_str());
        book.warn(string_of(&cat(&["Template mode ", quoted.as_str(), " is not one of repo/custom/builtin."])));
    }
}

fn qwen_step(book: &mut NoteBook, req: &TemplateDryRunRequest)
    ensures
        final(book).notes() == then(old(book).notes(), qwen_notes(*req)),
{
    let ghost start = book.notes();
    let reasoning = trim_str(req.reasoning_mode.as_str());
    if reasoning.len() == 0 {
        book.warn("Qwen launch has no explicit reasoning mode.".to_string());
    } else {
        let r = string_of(&reasoning);
        book.check(string_of(&cat(&["Qwen reasoning mode is ", r.as_str(), "."])));
    }
    let ghost first = book.notes();
    if req.parallel_slots > 1 {
        let n = string_of(&decimal_chars(req.parallel_slots as u64));
        book.warn(string_of(&cat(&[
            "Qwen tool reliability is usually best with one slot; current setting is ",
            n.as_str(),
            ".",
        ])));
    } else {
        book.check("Parallel slots set to 1 for Qwen tool reliability.".to_string());
    }
    let ghost second = book.notes();
    let kwargs = match &req.chat_template_kwargs_json {
        Some(k) => string_of(&trim_str(k.as_str())),
        None => String::new(),
    };
    assert(kwargs@ == kwargs_text(*req));
    if kwargs.as_str().is_empty() {
        book.warn(
            "Qwen launch has no chat_template_kwargs_json; thinking/tool behavior may depend on template defaults.".to_string(),
        );
    } else {
        match parse_json_object(kwargs.as_str()) {
            Ok(_) => book.check("Template kwargs JSON parses successfully.".to_string()),
            Err(_) => book.warn("Template kwargs JSON is not valid JSON.".to_string()),
        }
    }
    proof {
        let a = if trim(req.reasoning_mode@).len() == 0 {
            warn("Qwen launch has no explicit reasoning mode."@)
        } else {
            check("Qwen reasoning mode is "@ + trim(req.reasoning_mode@) + "."@)
        };
        let b = if req.parallel_slots > 1 {
            warn(
                "Qwen tool reliability is usually best with one slot; current setting is "@
                    + decimal(req.parallel_slots as nat) + "."@,
            )
        } else {
            check("Parallel slots set to 1 for Qwen tool reliability."@)
        };
        let c = book.notes();
        lemma_then_assoc(start, a, b);
        assert(second == then(then(start, a), b));
        let k = if kwargs_text(*req).len() == 0 {
            warn(
                "Qwen launch has no chat_template_kwargs_json; thinking/tool behavior may depend on template defaults."@,
            )
        } else if json_read(kwargs_text(*req)) is Ok {
            check("Template kwargs JSON parses successfully."@)
        } else {
            warn("Template kwargs JSON is not valid JSON."@)
        };
        assert(c == then(second, k));
        lemma_then_assoc(start, then(a, b), k);
    }
}

fn prompt_step(book: &mut NoteBook, prompt: &str)
    ensures
        final(book).notes() == then(old(book).notes(), prompt_notes(prompt@)),
{
    let ghost start = book.notes();
    let p = chars_of(prompt);
    if contains_chars(&p, &chars_of("<|im_start|>system")) || contains_chars(&p, &chars_of("<|turn>system")) {
        book.check("Rendered prompt contains a system turn marker.".to_string());
    } else {
        book.warn("Rendered prompt did not include a recognizable system turn marker.".to_string());
    }
    let ghost mid = book.notes();
    if contains_chars(&p, &chars_of("<|im_start|>assistant")) || contains_chars(&p, &chars_of("<|turn>model")) {
        book.check("Rendered prompt contains an assistant generation marker.".to_string());
    } else {
        book.warn("Rendered prompt did not include a recognizable assistant generation marker.".to_string());
    }
    proof {
        let a = if contains_seq(prompt@, "<|im_start|>system"@) || contains_seq(prompt@, "<|turn>system"@) {
            check("Rendered prompt contains a system turn marker."@)
        } else {
            warn("Rendered prompt did not include a recognizable system turn marker."@)
        };
        let b = if contains_seq(prompt@, "<|im_start|>assistant"@) || contains_seq(prompt@, "<|turn>model"@) {
            check("Rendered prompt contains an assistant generation marker."@)
        } else {
            warn("Rendered prompt did not include a recognizable assistant generation marker."@)
        };
        lemma_then_assoc(start, a, b);
    }
}

/// The report of a template dry run: the rendered `prompt` for
/// `model_name` (with the family, renderer and tool-call format its profile
/// gives), and every check and warning on the launch settings and on the
/// prompt. `custom_template_exists` says whether the custom template path
/// names an existing file.
pub fn template_dry_run_report(
    model_name: String,
    family: String,
    renderer: String,
    tool_format: String,
    prompt: String,
    request: &TemplateDryRunRequest,
    custom_template_exists: bool,
) -> (r: TemplateDryRunReport)
    ensures
        r.model_name@ == model_name@,
        r.family@ == family@,
        r.renderer@ == renderer@,
        r.tool_format@ == tool_format@,
        r.prompt@ == prompt@,
        texts(r.checks@) == dry_run_notes(model_name@, *request, custom_template_exists, prompt@).checks,
        texts(r.warnings@) == dry_run_notes(model_name@, *request, custom_template_exists, prompt@).warnings,
{
    let mut book = NoteBook { checks: Vec::new(), warnings: Vec::new() };
    assert(book.notes().checks =~= Seq::<Seq<char>>::empty());
    assert(book.notes().warnings =~= Seq::<Seq<char>>::empty());
    let ghost n0 = book.notes();
    jinja_step(&mut book, model_name.as_str(), request.use_jinja);
    let ghost n1 = book.notes();
    mode_step(&mut book, request, custom_template_exists);
    let ghost n2 = book.notes();
    let lower = ascii_lower_chars(&chars_of(model_name.as_str()));
    if contains_chars(&lower, &chars_of("qwen")) {
        qwen_step(&mut book, request);
    } else {
        proof {
            lemma_then_none(book.notes());
        }
    }
    let ghost n3 = book.notes();
    prompt_step(&mut book, prompt.as_str());
    proof {
        let j = jinja_notes(model_name@, request.use_jinja);
        let m = mode_notes(*request, custom_template_exists);
        let q = if looks_qwen(model_name@) { qwen_notes(*request) } else { no_notes() };
        let p = prompt_notes(prompt@);
        assert(n0 == no_notes());
        assert(then(no_notes(), j).checks =~= j.checks);
        assert(then(no_notes(), j).warnings =~= j.warnings);
        assert(n1 == j);
        assert(n2 == then(j, m));
        assert(n3 == then(then(j, m), q));
        assert(book.notes() == then(then(then(j, m), q), p));
    }
    TemplateDryRunReport {
        model_name,
        family,
        renderer,
        tool_format,
        prompt,
        checks: book.checks,
        warnings: book.warnings,
    }
}

} // verus!

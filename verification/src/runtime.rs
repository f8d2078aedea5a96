//! Model loading states and the runtime facts reported to the user.

use vstd::prelude::*;
use crate::text::{
    chars_equal, chars_of, contains_chars, contains_seq, is_ascii_alphanumeric,
    is_ascii_alphanumeric_exec, split_chars, split_on, string_of, to_lowercase, trim, trim_chars,
    trim_end_seq, trim_end_seq_chars, unicode_lowercase, parse_u64, parse_u64_chars,
    lemma_split_on_len, trim_char, trim_char_chars, starts_with, starts_with_chars, slice_chars,
};

verus! {

broadcast use vstd::string::group_string_axioms;

pub open spec fn opt_view(o: Option<String>) -> Option<Seq<char>> {
    match o {
        Some(s) => Some(s@),
        None => None,
    }
}

// ---------------------------------------------------------------------------
// Loading states
// ---------------------------------------------------------------------------

/// Where the model runtime stands.
#[derive(Clone, Debug, PartialEq, Eq)]
pub enum ModelLoadState {
    Idle,
    Loading,
    Swapping,
    Unloading,
    Loaded,
    Error(String),
}

/// Model file names agree, ignoring case and a `.gguf` suffix on either.
pub open spec fn names_agree(left: Seq<char>, right: Seq<char>) -> bool {
    let l = unicode_lowercase(left);
    let r = unicode_lowercase(right);
    l == r || trim_end_seq(l, ".gguf"@) == r || l == trim_end_seq(r, ".gguf"@)
}

/// Do two model names refer to the same file?
pub fn names_match(left: &str, right: &str) -> (b: bool)
    ensures
        b == names_agree(left@, right@),
{
    let l = chars_of(&to_lowercase(left));
    let r = chars_of(&to_lowercase(right));
    proof {
        reveal_strlit(".gguf");
    }
    let ext = chars_of(".gguf");
    chars_equal(&l, &r) || chars_equal(&trim_end_seq_chars(&l, &ext), &r) || chars_equal(
        &l,
        &trim_end_seq_chars(&r, &ext),
    )
}

/// Names match in both orders.
pub proof fn lemma_names_agree_symmetric(a: Seq<char>, b: Seq<char>)
    ensures
        names_agree(a, b) == names_agree(b, a),
{
}

/// The state while a request for `requested` is served: a swap when
/// another model is loaded, a plain load otherwise.
pub open spec fn transition_for(current: Option<Seq<char>>, requested: Seq<char>) -> ModelLoadState {
    match current {
        Some(c) => if !names_agree(c, requested) {
            ModelLoadState::Swapping
        } else {
            ModelLoadState::Loading
        },
        None => ModelLoadState::Loading,
    }
}

/// The state a load request puts the runtime in.
pub fn load_transition_for_request(current_model: Option<&str>, requested_model: &str) -> (s: ModelLoadState)
    ensures
        s == transition_for(
            match current_model {
                Some(c) => Some(c@),
                None => None,
            },
            requested_model@,
        ),
{
    match current_model {
        Some(current) => if !names_match(current, requested_model) {
            ModelLoadState::Swapping
        } else {
            ModelLoadState::Loading
        },
        None => ModelLoadState::Loading,
    }
}

/// The state after a transition finishes: the error if there is one;
/// otherwise idle after unloading and loaded after anything else.
pub fn done_model_load_state(transition: &ModelLoadState, error: Option<&str>) -> (s: ModelLoadState)
    ensures
        match error {
            Some(e) => s matches ModelLoadState::Error(m) && m@ == e@,
            None => s == if *transition == ModelLoadState::Unloading {
                ModelLoadState::Idle
            } else {
                ModelLoadState::Loaded
            },
        },
{
    if let Some(e) = error {
        return ModelLoadState::Error(e.to_string());
    }
    match transition {
        ModelLoadState::Unloading => ModelLoadState::Idle,
        _ => ModelLoadState::Loaded,
    }
}

pub open spec fn state_label(s: ModelLoadState) -> Seq<char> {
    match s {
        ModelLoadState::Idle => "Idle"@,
        ModelLoadState::Loading => "Loading"@,
        ModelLoadState::Swapping => "Swapping"@,
        ModelLoadState::Unloading => "Unloading"@,
        ModelLoadState::Loaded => "Loaded"@,
        ModelLoadState::Error(_) => "Error"@,
    }
}

/// The state's name, without an error's message.
pub fn model_load_state_label(state: &ModelLoadState) -> (r: String)
    ensures
        r@ == state_label(*state),
{
    match state {
        ModelLoadState::Idle => "Idle".to_string(),
        ModelLoadState::Loading => "Loading".to_string(),
        ModelLoadState::Swapping => "Swapping".to_string(),
        ModelLoadState::Unloading => "Unloading".to_string(),
        ModelLoadState::Loaded => "Loaded".to_string(),
        ModelLoadState::Error(_) => "Error".to_string(),
    }
}

// ---------------------------------------------------------------------------
// Load requests
// ---------------------------------------------------------------------------

/// A requested context size: zero means "not requested".
pub open spec fn requested_context(c: Option<u32>) -> Option<u32> {
    match c {
        Some(v) => if v > 0 { Some(v) } else { None },
        None => None,
    }
}

/// Drop a zero context size.
pub fn normalize_requested_context_size(context_size: Option<u32>) -> (r: Option<u32>)
    ensures
        r == requested_context(context_size),
{
    match context_size {
        Some(v) => if v > 0 { Some(v) } else { None },
        None => None,
    }
}

/// The context size passed to llama-server: exactly what was requested,
/// and nothing when nothing (or zero) was requested, so the model's own
/// window applies.
pub fn resolve_launch_context_size(requested_context_size: Option<u32>) -> (r: Option<u32>)
    ensures
        r == requested_context(requested_context_size),
{
    normalize_requested_context_size(requested_context_size)
}

/// Resolving twice changes nothing.
pub proof fn lemma_context_resolution_idempotent(c: Option<u32>)
    ensures
        requested_context(requested_context(c)) == requested_context(c),
{
}

/// Overrides of the configured launch settings for one load.
#[derive(Clone, Debug, Default)]
pub struct RuntimeLoadOverrides {
    pub hf_repo: Option<String>,
    pub hf_file: Option<String>,
    pub fit_mode: Option<String>,
    pub cache_ram_mb: Option<u32>,
    pub ctxcp: Option<u32>,
    pub use_jinja: Option<bool>,
    pub reasoning_mode: Option<String>,
    pub template_mode: Option<String>,
    pub template_name: Option<String>,
    pub custom_template_path: Option<String>,
    pub chat_template_kwargs_json: Option<String>,
    pub extra_args: Option<Vec<String>>,
}

/// A load request as the API receives it.
#[derive(Clone, Debug, Default)]
pub struct RuntimeLoadRequest {
    pub context_size: Option<u32>,
    pub hf_repo: Option<String>,
    pub hf_file: Option<String>,
    pub fit_mode: Option<String>,
    pub cache_ram_mb: Option<u32>,
    pub ctxcp: Option<u32>,
    pub use_jinja: Option<bool>,
    pub reasoning_mode: Option<String>,
    pub template_mode: Option<String>,
    pub template_name: Option<String>,
    pub custom_template_path: Option<String>,
    pub chat_template_kwargs_json: Option<String>,
    pub extra_args: Option<Vec<String>>,
}

impl RuntimeLoadRequest {
    /// The requested context size, zero meaning none.
    pub fn normalized_context_size(&self) -> (r: Option<u32>)
        ensures
            r == requested_context(self.context_size),
    {
        normalize_requested_context_size(self.context_size)
    }

    /// The request's launch overrides: everything but the context size.
    pub fn into_overrides(self) -> (o: RuntimeLoadOverrides)
        ensures
            o.hf_repo == self.hf_repo,
            o.hf_file == self.hf_file,
            o.fit_mode == self.fit_mode,
            o.cache_ram_mb == self.cache_ram_mb,
            o.ctxcp == self.ctxcp,
            o.use_jinja == self.use_jinja,
            o.reasoning_mode == self.reasoning_mode,
            o.template_mode == self.template_mode,
            o.template_name == self.template_name,
            o.custom_template_path == self.custom_template_path,
            o.chat_template_kwargs_json == self.chat_template_kwargs_json,
            o.extra_args == self.extra_args,
    {
        RuntimeLoadOverrides {
            hf_repo: self.hf_repo,
            hf_file: self.hf_file,
            fit_mode: self.fit_mode,
            cache_ram_mb: self.cache_ram_mb,
            ctxcp: self.ctxcp,
            use_jinja: self.use_jinja,
            reasoning_mode: self.reasoning_mode,
            template_mode: self.template_mode,
            template_name: self.template_name,
            custom_template_path: self.custom_template_path,
            chat_template_kwargs_json: self.chat_template_kwargs_json,
            extra_args: self.extra_args,
        }
    }
}

pub open spec fn cache_safe_char(c: char) -> char {
    if is_ascii_alphanumeric(c) || c == '-' || c == '_' || c == '.' {
        c
    } else {
        '_'
    }
}

/// A repository or file name made safe as one cache directory name: every
/// character but ASCII letters, digits, `-`, `_` and `.` becomes `_`.
pub fn sanitize_hf_cache_segment(value: &str) -> (r: String)
    ensures
        r@ == value@.map_values(|c: char| cache_safe_char(c)),
{
    let v = chars_of(value);
    let mut out: Vec<char> = Vec::new();
    let mut i: usize = 0;
    while i < v.len()
        invariant
            i <= v.len(),
            v@ == value@,
            out@ == v@.take(i as int).map_values(|c: char| cache_safe_char(c)),
        decreases v.len() - i,
    {
        let c = v[i];
        out.push(if is_ascii_alphanumeric_exec(c) || c == '-' || c == '_' || c == '.' { c } else { '_' });
        i += 1;
        assert(out@ =~= v@.take(i as int).map_values(|c: char| cache_safe_char(c)));
    }
    assert(v@.take(i as int) =~= v@);
    string_of(&out)
}

/// The model whose profile is shown: the requested one (trimmed, when not
/// blank), else the loaded one, else the first registered one.
pub open spec fn profile_model(requested: Option<Seq<char>>, loaded: Option<Seq<char>>, first: Option<Seq<char>>) -> Option<Seq<char>> {
    match requested {
        Some(r) if trim(r).len() > 0 => Some(trim(r)),
        _ => match loaded {
            Some(l) => Some(l),
            None => first,
        },
    }
}

/// Choose the model whose effective profile is reported.
pub fn resolve_effective_profile_model(requested: Option<&str>, loaded: Option<&str>, first_registered: Option<&str>) -> (r: Result<String, String>)
    ensures
        match profile_model(
            match requested {
                Some(x) => Some(x@),
                None => None,
            },
            match loaded {
                Some(x) => Some(x@),
                None => None,
            },
            match first_registered {
                Some(x) => Some(x@),
                None => None,
            },
        ) {
            Some(m) => r matches Ok(s) && s@ == m,
            None => r matches Err(e) && e@ == "No model is available to resolve an effective profile"@,
        },
{
    if let Some(req) = requested {
        let t = crate::text::trim_str(req);
        if t.len() > 0 {
            return Ok(string_of(&t));
        }
    }
    match loaded {
        Some(l) => Ok(l.to_string()),
        None => match first_registered {
            Some(f) => Ok(f.to_string()),
            None => Err("No model is available to resolve an effective profile".to_string()),
        },
    }
}

// ---------------------------------------------------------------------------
// Machine facts
// ---------------------------------------------------------------------------

/// GPU memory as `nvidia-smi` reports it, with the machine's RAM.
#[derive(Clone, Debug)]
pub struct GpuStats {
    pub name: String,
    pub used_mb: u64,
    pub dedicated_mb: u64,
    pub free_mb: u64,
    pub system_ram_mb: u64,
}

/// The process listening on the API port.
#[derive(Clone, Debug)]
pub struct ApiPortOwnerInfo {
    pub pid: u32,
    pub name: Option<String>,
    /// `self`, `llama-server`, `inference-bridge` or `other`.
    pub kind: String,
    pub killable: bool,
}

/// Whether a llama-server binary was found, where, and which version.
#[derive(Clone, Debug)]
pub struct ServerInfo {
    pub found: bool,
    pub path: Option<String>,
    pub version: Option<String>,
}

/// Lines of a text (`str::lines`): split at `\n`, a `\r` before it dropped,
/// and no empty last line after a final newline.
pub open spec fn text_lines(s: Seq<char>) -> Seq<Seq<char>> {
    let pieces = split_on(s, '\n');
    let all = pieces.map_values(|p: Seq<char>| if p.len() > 0 && p.last() == '\r' { p.drop_last() } else { p });
    if s.len() > 0 && s.last() == '\n' {
        all.drop_last()
    } else if s.len() == 0 {
        seq![]
    } else {
        all
    }
}

fn strip_cr(p: &Vec<char>) -> (r: Vec<char>)
    ensures
        r@ == if p@.len() > 0 && p@.last() == '\r' { p@.drop_last() } else { p@ },
{
    if p.len() > 0 && p[p.len() - 1] == '\r' {
        let r = crate::text::slice_chars(p, 0, p.len() - 1);
        assert(r@ =~= p@.drop_last());
        r
    } else {
        let r = crate::text::slice_chars(p, 0, p.len());
        assert(r@ =~= p@);
        r
    }
}

/// The lines of a text (`str::lines`).
pub fn lines_exec(text: &[char]) -> (r: Vec<Vec<char>>)
    ensures
        r@.map_values(|p: Vec<char>| p@) == text_lines(text@),
{
    if text.len() == 0 {
        let r: Vec<Vec<char>> = Vec::new();
        assert(r@.map_values(|p: Vec<char>| p@) =~= text_lines(text@));
        return r;
    }
    let pieces = split_chars(text, '\n');
    let ghost pv = pieces@.map_values(|p: Vec<char>| p@);
    let ghost all = split_on(text@, '\n').map_values(
        |p: Seq<char>| if p.len() > 0 && p.last() == '\r' { p.drop_last() } else { p },
    );
    proof {
        lemma_split_on_len(text@, '\n');
        if text@.last() == '\n' {
            lemma_split_ends(text@);
        }
    }
    let n = if text[text.len() - 1] == '\n' { pieces.len() - 1 } else { pieces.len() };
    let mut r: Vec<Vec<char>> = Vec::new();
    let mut i: usize = 0;
    while i < n
        invariant
            i <= n <= pieces.len(),
            pv == pieces@.map_values(|p: Vec<char>| p@),
            pv == split_on(text@, '\n'),
            all == pv.map_values(|p: Seq<char>| if p.len() > 0 && p.last() == '\r' { p.drop_last() } else { p }),
            r@.len() == i,
            forall|j: int| 0 <= j < i ==> (#[trigger] r@[j])@ == all[j],
        decreases n - i,
    {
        assert(pv[i as int] == pieces@[i as int]@);
        r.push(strip_cr(&pieces[i]));
        i += 1;
    }
    assert(r@.map_values(|p: Vec<char>| p@) =~= text_lines(text@));
    r
}

/// The first line of a text, if it has one.
pub open spec fn first_line(s: Seq<char>) -> Option<Seq<char>> {
    if text_lines(s).len() > 0 {
        Some(text_lines(s)[0])
    } else {
        None
    }
}

proof fn lemma_first_line(s: Seq<char>)
    ensures
        s.len() > 0 ==> text_lines(s).len() > 0 && {
            let p = split_on(s, '\n')[0];
            text_lines(s)[0] == if p.len() > 0 && p.last() == '\r' { p.drop_last() } else { p }
        },
{
    lemma_split_on_len(s, '\n');
    if s.len() > 0 && s.last() == '\n' {
        lemma_split_ends(s);
    }
}

proof fn lemma_split_ends(s: Seq<char>)
    requires
        s.len() > 0,
        s.last() == '\n',
    ensures
        split_on(s, '\n').len() >= 2,
{
    lemma_split_on_len(s.drop_last(), '\n');
}

fn first_line_exec(text: &[char]) -> (r: Option<Vec<char>>)
    ensures
        match r {
            Some(l) => first_line(text@) == Some(l@),
            None => first_line(text@) is None,
        },
{
    proof {
        lemma_first_line(text@);
    }
    if text.len() == 0 {
        return None;
    }
    let pieces = split_chars(text, '\n');
    proof {
        lemma_split_on_len(text@, '\n');
    }
    let p = &pieces[0];
    assert(p@ == split_on(text@, '\n')[0]);
    if p.len() > 0 && p[p.len() - 1] == '\r' {
        let r = crate::text::slice_chars(p, 0, p.len() - 1);
        assert(r@ =~= p@.drop_last());
        Some(r)
    } else {
        Some(crate::text::slice_chars(p, 0, p.len()))
    }
}

/// The first `n - 1` pieces of `s` split at `sep`, and the rest as the last
/// piece (`str::splitn`).
pub open spec fn splitn(s: Seq<char>, n: nat, sep: char) -> Seq<Seq<char>>
    decreases n,
{
    if n <= 1 {
        seq![s]
    } else {
        match crate::text::index_of_char(s, sep) {
            None => seq![s],
            Some(i) => seq![s.take(i)] + splitn(s.skip(i + 1), (n - 1) as nat, sep),
        }
    }
}

fn splitn_exec(s: &[char], n: usize, sep: char) -> (r: Vec<Vec<char>>)
    ensures
        r@.map_values(|p: Vec<char>| p@) == splitn(s@, n as nat, sep),
    decreases n,
{
    if n <= 1 {
        let whole = crate::text::slice_chars(s, 0, s.len());
        assert(whole@ =~= s@);
        let r = vec![whole];
        assert(r@.map_values(|p: Vec<char>| p@) =~= seq![s@]);
        return r;
    }
    match crate::text::index_of_char_exec(s, sep) {
        None => {
            let whole = crate::text::slice_chars(s, 0, s.len());
            assert(whole@ =~= s@);
            let r = vec![whole];
            assert(r@.map_values(|p: Vec<char>| p@) =~= seq![s@]);
            r
        },
        Some(i) => {
            proof {
                crate::text::lemma_index_of_char(s@, sep);
            }
            let head = crate::text::slice_chars(s, 0, i);
            let tail = crate::text::slice_chars(s, i + 1, s.len());
            assert(head@ =~= s@.take(i as int));
            assert(tail@ =~= s@.skip(i + 1));
            let rest = splitn_exec(&tail, n - 1, sep);
            let mut r = vec![head];
            let mut k: usize = 0;
            let ghost rv = rest@.map_values(|p: Vec<char>| p@);
            while k < rest.len()
                invariant
                    k <= rest.len(),
                    rv == rest@.map_values(|p: Vec<char>| p@),
                    r@.map_values(|p: Vec<char>| p@) == seq![s@.take(i as int)] + rv.take(k as int),
                decreases rest.len() - k,
            {
                let piece = crate::text::slice_chars(&rest[k], 0, rest[k].len());
                assert(piece@ =~= rest@[k as int]@);
                assert(rv[k as int] == rest@[k as int]@);
                let ghost before = r@.map_values(|p: Vec<char>| p@);
                r.push(piece);
                assert(r@.map_values(|p: Vec<char>| p@) =~= before.push(rv[k as int]));
                k += 1;
                assert(r@.map_values(|p: Vec<char>| p@) =~= seq![s@.take(i as int)] + rv.take(k as int));
            }
            assert(rv.take(k as int) =~= rv);
            r
        },
    }
}

/// A number field of tool output: trimmed and parsed, 0 when it is not a
/// number.
pub open spec fn number_or_zero(s: Seq<char>) -> u64 {
    match parse_u64(trim(s)) {
        Some(n) => n,
        None => 0,
    }
}

fn number_or_zero_exec(s: &[char]) -> (n: u64)
    ensures
        n == number_or_zero(s@),
{
    match parse_u64_chars(&trim_chars(s)) {
        Some(n) => n,
        None => 0,
    }
}

/// The GPU name and memory figures of the first line of
/// `nvidia-smi --query-gpu=name,memory.used,memory.total,memory.free`.
pub open spec fn nvidia_smi_figures(text: Seq<char>) -> Result<(Seq<char>, u64, u64, u64), Seq<char>> {
    match first_line(text) {
        None => Err("No output from nvidia-smi"@),
        Some(line) => {
            let parts = splitn(line, 4, ',');
            if parts.len() < 4 {
                Err("Unexpected nvidia-smi output: "@ + line)
            } else {
                Ok((trim(parts[0]), number_or_zero(parts[1]), number_or_zero(parts[2]), number_or_zero(parts[3])))
            }
        },
    }
}

/// GPU statistics from `nvidia-smi` output and the machine's RAM.
pub fn gpu_stats_from_nvidia_smi(text: &str, system_ram_mb: u64) -> (r: Result<GpuStats, String>)
    ensures
        match nvidia_smi_figures(text@) {
            Ok((name, used, dedicated, free)) => r matches Ok(g) && g.name@ == name && g.used_mb == used
                && g.dedicated_mb == dedicated && g.free_mb == free && g.system_ram_mb == system_ram_mb,
            Err(e) => r matches Err(m) && m@ == e,
        },
{
    let t = chars_of(text);
    let line = match first_line_exec(&t) {
        None => {
            return Err("No output from nvidia-smi".to_string());
        },
        Some(l) => l,
    };
    let parts = splitn_exec(&line, 4, ',');
    let ghost pv = parts@.map_values(|p: Vec<char>| p@);
    if parts.len() < 4 {
        let mut msg = chars_of("Unexpected nvidia-smi output: ");
        let mut i: usize = 0;
        let ghost m0 = msg@;
        while i < line.len()
            invariant
                i <= line.len(),
                msg@ == m0 + line@.take(i as int),
            decreases line.len() - i,
        {
            msg.push(line[i]);
            i += 1;
            assert(msg@ =~= m0 + line@.take(i as int));
        }
        assert(line@.take(i as int) =~= line@);
        return Err(string_of(&msg));
    }
    assert(pv[0] == parts@[0]@ && pv[1] == parts@[1]@ && pv[2] == parts@[2]@ && pv[3] == parts@[3]@);
    Ok(GpuStats {
        name: string_of(&trim_chars(&parts[0])),
        used_mb: number_or_zero_exec(&parts[1]),
        dedicated_mb: number_or_zero_exec(&parts[2]),
        free_mb: number_or_zero_exec(&parts[3]),
        system_ram_mb,
    })
}

/// What the API port's owner is and whether it may be stopped: this
/// process is `self`; a name containing `llama-server` or
/// `inference-bridge` (lowercased) is that and may be killed; an unknown
/// name gives no answer; anything else is `other`.
pub open spec fn owner_kind(pid: u32, current_pid: u32, name: Option<Seq<char>>) -> Option<(Seq<char>, bool)> {
    let lower = match name {
        Some(n) => unicode_lowercase(n),
        None => unicode_lowercase(Seq::<char>::empty()),
    };
    if pid == current_pid {
        Some(("self"@, false))
    } else if contains_seq(lower, "llama-server"@) {
        Some(("llama-server"@, true))
    } else if contains_seq(lower, "inference-bridge"@) {
        Some(("inference-bridge"@, true))
    } else if lower.len() == 0 {
        None
    } else {
        Some(("other"@, false))
    }
}

/// Describe the process that holds the API port.
pub fn classify_port_owner(pid: u32, current_pid: u32, name: Option<String>) -> (r: Option<ApiPortOwnerInfo>)
    ensures
        match owner_kind(pid, current_pid, opt_view(name)) {
            Some((kind, killable)) => r matches Some(o) && o.pid == pid && opt_view(o.name) == opt_view(name)
                && o.kind@ == kind && o.killable == killable,
            None => r is None,
        },
{
    let lower = match &name {
        Some(n) => chars_of(&to_lowercase(n.as_str())),
        None => chars_of(&to_lowercase("")),
    };
    proof {
        reveal_strlit("");
        assert(""@ =~= Seq::<char>::empty());
    }
    let (kind, killable) = if pid == current_pid {
        ("self".to_string(), false)
    } else if contains_chars(&lower, &chars_of("llama-server")) {
        ("llama-server".to_string(), true)
    } else if contains_chars(&lower, &chars_of("inference-bridge")) {
        ("inference-bridge".to_string(), true)
    } else if lower.len() == 0 {
        return None;
    } else {
        ("other".to_string(), false)
    };
    Some(ApiPortOwnerInfo { pid, name, kind, killable })
}

/// The image name in `tasklist /FO CSV /NH` output: the first field of the
/// first line, quotes and white space stripped; none for an empty answer or
/// an `INFO:` message.
pub open spec fn tasklist_name(text: Seq<char>) -> Option<Seq<char>> {
    match first_line(text) {
        None => None,
        Some(l) => {
            let line = trim(l);
            if line.len() == 0 || starts_with(line, "INFO:"@) {
                None
            } else {
                let name = trim(trim_char(split_on(line, ',')[0], '"'));
                if name.len() == 0 {
                    None
                } else {
                    Some(name)
                }
            }
        },
    }
}

/// The process name `tasklist` reports.
pub fn process_name_from_tasklist(text: &str) -> (r: Option<String>)
    ensures
        opt_view(r) == tasklist_name(text@),
{
    let t = chars_of(text);
    let l = match first_line_exec(&t) {
        None => {
            return None;
        },
        Some(l) => l,
    };
    let line = trim_chars(&l);
    if line.len() == 0 || starts_with_chars(&line, &chars_of("INFO:")) {
        return None;
    }
    let fields = split_chars(&line, ',');
    proof {
        lemma_split_on_len(line@, ',');
    }
    assert(fields@[0]@ == split_on(line@, ',')[0]);
    let name = trim_chars(&trim_char_chars(&fields[0], '"'));
    if name.len() == 0 {
        None
    } else {
        Some(string_of(&name))
    }
}

/// The runtime backend a llama-server binary uses: CUDA or Vulkan by the
/// libraries next to it, else by its path (lowercased), else a GPU build.
pub open spec fn backend_label(cuda_libraries: bool, vulkan_library: bool, path: Seq<char>) -> Seq<char> {
    let lower = unicode_lowercase(path);
    if cuda_libraries {
        "CUDA"@
    } else if vulkan_library {
        "Vulkan"@
    } else if contains_seq(lower, "cuda"@) {
        "CUDA"@
    } else if contains_seq(lower, "vulkan"@) {
        "Vulkan"@
    } else {
        "GPU"@
    }
}

/// Name the backend of the binary at `path`, given which backend libraries
/// lie beside it; `Unknown` without a binary.
pub fn detect_backend_from_path(path: Option<&str>, cuda_libraries: bool, vulkan_library: bool) -> (r: String)
    ensures
        match path {
            None => r@ == "Unknown"@,
            Some(p) => r@ == backend_label(cuda_libraries, vulkan_library, p@),
        },
{
    let p = match path {
        None => {
            return "Unknown".to_string();
        },
        Some(p) => p,
    };
    if cuda_libraries {
        return "CUDA".to_string();
    }
    if vulkan_library {
        return "Vulkan".to_string();
    }
    let lower = chars_of(&to_lowercase(p));
    if contains_chars(&lower, &chars_of("cuda")) {
        "CUDA".to_string()
    } else if contains_chars(&lower, &chars_of("vulkan")) {
        "Vulkan".to_string()
    } else {
        "GPU".to_string()
    }
}

// ---------------------------------------------------------------------------
// llama-server processes found on this machine
// ---------------------------------------------------------------------------

/// A process listing entry. Its memory figure is kept as the text the
/// listing printed (bytes from WMIC, kilobytes from tasklist).
#[derive(Clone, Debug)]
pub struct ListedProcess {
    pub pid: u32,
    pub name: String,
    pub command_line: String,
    pub memory_text: String,
}

pub ghost struct ListedModel {
    pub pid: u32,
    pub name: Seq<char>,
    pub command_line: Seq<char>,
    pub memory_text: Seq<char>,
}

impl View for ListedProcess {
    type V = ListedModel;

    open spec fn view(&self) -> ListedModel {
        ListedModel { pid: self.pid, name: self.name@, command_line: self.command_line@, memory_text: self.memory_text@ }
    }
}

/// `u32::from_str`, with 0 for text that is not a `u32`.
pub open spec fn pid_value(t: Seq<char>) -> u32 {
    match parse_u64(t) {
        Some(n) => if n <= u32::MAX { n as u32 } else { 0 },
        None => 0,
    }
}

fn pid_value_exec(t: &[char]) -> (r: u32)
    ensures
        r == pid_value(t@),
{
    match parse_u64_chars(t) {
        Some(n) => if n <= 0xffff_ffff { n as u32 } else { 0 },
        None => 0,
    }
}

/// One line of WMIC's CSV listing (`Node,CommandLine,Name,ProcessId,WorkingSetSize`),
/// read from the right since a command line may hold commas: kept when it
/// has a process id and its name or command line mentions llama.
pub open spec fn wmic_process(line: Seq<char>) -> Option<ListedModel> {
    let v = split_on(line, ',');
    let n = v.len();
    if n < 5 {
        None
    } else {
        let pid = pid_value(trim(v[n - 2]));
        let name = trim(v[n - 3]);
        let cmd = trim(v[n - 4]);
        if pid > 0 && (contains_seq(unicode_lowercase(name), "llama"@) || contains_seq(unicode_lowercase(cmd), "llama"@)) {
            Some(ListedModel { pid, name, command_line: cmd, memory_text: trim(v[n - 1]) })
        } else {
            None
        }
    }
}

/// One line of tasklist's CSV listing (`"name","pid","session","session#","mem"`):
/// kept when it has a process id.
pub open spec fn tasklist_process(line: Seq<char>) -> Option<ListedModel> {
    let v = split_on(line, ',');
    if v.len() < 5 {
        None
    } else {
        let pid = pid_value(trim(trim_char(v[1], '"')));
        if pid > 0 {
            Some(ListedModel {
                pid,
                name: trim_char(v[0], '"'),
                command_line: Seq::empty(),
                memory_text: trim(trim_char(v[4], '"')),
            })
        } else {
            None
        }
    }
}

/// The entries kept from the lines of a listing, in order.
pub open spec fn kept_processes(lines: Seq<Seq<char>>, wmic: bool) -> Seq<ListedModel>
    decreases lines.len(),
{
    if lines.len() == 0 {
        Seq::empty()
    } else {
        let rest = kept_processes(lines.drop_last(), wmic);
        match if wmic { wmic_process(lines.last()) } else { tasklist_process(lines.last()) } {
            Some(m) => rest.push(m),
            None => rest,
        }
    }
}

/// The lines after the first, as `Iterator::skip(1)` gives them.
pub open spec fn without_header(ls: Seq<Seq<char>>) -> Seq<Seq<char>> {
    if ls.len() > 0 { ls.skip(1) } else { ls }
}

pub open spec fn listed_view(v: Seq<ListedProcess>) -> Seq<ListedModel> {
    v.map_values(|p: ListedProcess| p@)
}

fn mentions_llama(t: &[char]) -> (b: bool)
    ensures
        b == contains_seq(unicode_lowercase(t@), "llama"@),
{
    let lower = to_lowercase(string_of(t).as_str());
    contains_chars(&chars_of(lower.as_str()), &chars_of("llama"))
}

fn wmic_process_exec(line: &[char]) -> (r: Option<ListedProcess>)
    ensures
        match wmic_process(line@) {
            Some(m) => r matches Some(p) && p@ == m,
            None => r is None,
        },
{
    let v = split_chars(line, ',');
    let ghost sv = split_on(line@, ',');
    assert(v@.map_values(|p: Vec<char>| p@) == sv);
    let n = v.len();
    if n < 5 {
        return None;
    }
    assert(v@[n - 2]@ == sv[n - 2] && v@[n - 3]@ == sv[n - 3] && v@[n - 4]@ == sv[n - 4] && v@[n - 1]@ == sv[n - 1]);
    let pid = pid_value_exec(&trim_chars(&v[n - 2]));
    let name = trim_chars(&v[n - 3]);
    let cmd = trim_chars(&v[n - 4]);
    if pid > 0 && (mentions_llama(&name) || mentions_llama(&cmd)) {
        Some(ListedProcess {
            pid,
            name: string_of(&name),
            command_line: string_of(&cmd),
            memory_text: string_of(&trim_chars(&v[n - 1])),
        })
    } else {
        None
    }
}

fn tasklist_process_exec(line: &[char]) -> (r: Option<ListedProcess>)
    ensures
        match tasklist_process(line@) {
            Some(m) => r matches Some(p) && p@ == m,
            None => r is None,
        },
{
    let v = split_chars(line, ',');
    let ghost sv = split_on(line@, ',');
    assert(v@.map_values(|p: Vec<char>| p@) == sv);
    if v.len() < 5 {
        return None;
    }
    assert(v@[0]@ == sv[0] && v@[1]@ == sv[1] && v@[4]@ == sv[4]);
    let pid = pid_value_exec(&trim_chars(&trim_char_chars(&v[1], '"')));
    if pid > 0 {
        let empty: Vec<char> = Vec::new();
        assert(empty@ =~= Seq::<char>::empty());
        Some(ListedProcess {
            pid,
            name: string_of(&trim_char_chars(&v[0], '"')),
            command_line: string_of(&empty),
            memory_text: string_of(&trim_chars(&trim_char_chars(&v[4], '"'))),
        })
    } else {
        None
    }
}

/// The llama-server processes in a listing's output: WMIC's CSV (its header
/// line skipped) when `wmic` is set, else tasklist's.
pub fn listed_llama_processes(output: &str, wmic: bool) -> (r: Vec<ListedProcess>)
    ensures
        listed_view(r@) == kept_processes(
            if wmic { without_header(text_lines(output@)) } else { text_lines(output@) },
            wmic,
        ),
{
    let all = lines_exec(&chars_of(output));
    let ghost lv = all@.map_values(|p: Vec<char>| p@);
    let start: usize = if wmic && all.len() > 0 { 1 } else { 0 };
    let ghost lines = if wmic { without_header(lv) } else { lv };
    assert(lines =~= lv.skip(start as int));
    let mut out: Vec<ListedProcess> = Vec::new();
    let mut i: usize = start;
    while i < all.len()
        invariant
            start <= i <= all.len(),
            lv == all@.map_values(|p: Vec<char>| p@),
            lines == lv.skip(start as int),
            listed_view(out@) == kept_processes(lines.take(i - start), wmic),
        decreases all.len() - i,
    {
        let ghost before = listed_view(out@);
        let ghost t = lines.take(i + 1 - start);
        assert(t.drop_last() =~= lines.take(i - start));
        assert(t.last() == lv[i as int]);
        assert(lv[i as int] == all@[i as int]@);
        let found = if wmic { wmic_process_exec(&all[i]) } else { tasklist_process_exec(&all[i]) };
        match found {
            Some(p) => {
                out.push(p);
                assert(listed_view(out@) =~= before.push(p@));
            },
            None => {},
        }
        i += 1;
    }
    assert(lines.take(all.len() - start) =~= lines);
    out
}

/// The machine's memory in MiB from `wmic OS get TotalVisibleMemorySize
/// /VALUE`: the first `TotalVisibleMemorySize=` line whose value (trimmed)
/// is a `u64` number of KiB; 0 when there is none.
pub open spec fn ram_mb_from(lines: Seq<Seq<char>>) -> u64
    decreases lines.len(),
{
    if lines.len() == 0 {
        0
    } else {
        let l = lines[0];
        let key = "TotalVisibleMemorySize="@;
        if starts_with(l, key) && parse_u64(trim(l.skip(key.len() as int))) is Some {
            (parse_u64(trim(l.skip(key.len() as int)))->0 / 1024) as u64
        } else {
            ram_mb_from(lines.drop_first())
        }
    }
}

pub fn system_ram_mb(output: &str) -> (mb: u64)
    ensures
        mb == ram_mb_from(text_lines(output@)),
{
    let lines = lines_exec(&chars_of(output));
    let ghost lv = lines@.map_values(|p: Vec<char>| p@);
    let key = chars_of("TotalVisibleMemorySize=");
    assert(lv.skip(0) =~= lv);
    let mut i: usize = 0;
    while i < lines.len()
        invariant
            i <= lines.len(),
            lv == lines@.map_values(|p: Vec<char>| p@),
            key@ == "TotalVisibleMemorySize="@,
            lv == text_lines(output@),
            ram_mb_from(lv) == ram_mb_from(lv.skip(i as int)),
        decreases lines.len() - i,
    {
        let ghost rest = lv.skip(i as int);
        assert(rest[0] == lines@[i as int]@);
        assert(rest.drop_first() =~= lv.skip(i + 1));
        let l = &lines[i];
        if starts_with_chars(l, &key) {
            let value = trim_chars(&slice_chars(l, key.len(), l.len()));
            assert(value@ == trim(l@.skip(key@.len() as int))) by {
                assert(l@.subrange(key.len() as int, l@.len() as int) =~= l@.skip(key@.len() as int));
            }
            if let Some(kb) = parse_u64_chars(&value) {
                assert(rest.len() > 0);
                assert(ram_mb_from(rest) == (kb / 1024) as u64);
                return kb / 1024;
            }
        }
        i += 1;
    }
    assert(lv.skip(i as int) =~= Seq::<Seq<char>>::empty());
    0
}

/// A tasklist line that names a process with an id: at least two fields,
/// the second a `u32` above 0 once its quotes and spaces are trimmed.
pub open spec fn names_running_process(line: Seq<char>) -> bool {
    let v = split_on(line, ',');
    v.len() >= 2 && pid_value(trim(trim_char(v[1], '"'))) > 0
}

pub open spec fn running_count(lines: Seq<Seq<char>>) -> nat
    decreases lines.len(),
{
    if lines.len() == 0 {
        0
    } else {
        running_count(lines.drop_last()) + if names_running_process(lines.last()) { 1nat } else { 0nat }
    }
}

/// How many llama-server processes tasklist's CSV output lists.
pub fn existing_server_count(output: &str) -> (n: usize)
    ensures
        n == running_count(text_lines(output@)),
{
    let lines = lines_exec(&chars_of(output));
    let ghost lv = lines@.map_values(|p: Vec<char>| p@);
    let mut n: usize = 0;
    let mut i: usize = 0;
    while i < lines.len()
        invariant
            i <= lines.len(),
            n <= i,
            lv == lines@.map_values(|p: Vec<char>| p@),
            n == running_count(lv.take(i as int)),
        decreases lines.len() - i,
    {
        let ghost t = lv.take(i + 1);
        assert(t.drop_last() =~= lv.take(i as int));
        assert(t.last() == lines@[i as int]@);
        let v = split_chars(&lines[i], ',');
        let ghost sv = split_on(lines@[i as int]@, ',');
        assert(v@.map_values(|p: Vec<char>| p@) == sv);
        if v.len() >= 2 {
            assert(v@[1]@ == sv[1]);
            if pid_value_exec(&trim_chars(&trim_char_chars(&v[1], '"'))) > 0 {
                n += 1;
            }
        }
        i += 1;
    }
    assert(lv.take(i as int) =~= lv);
    n
}

} // verus!

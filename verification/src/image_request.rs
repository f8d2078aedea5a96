//! Turning an image request into a job for the native runner: whether the
//! setup is ready, which bundle and profile the request uses, what it
//! overrides, the checks on its prompts, and the runner's argument list.

use vstd::prelude::*;
use crate::engine::launch::signed_text;
use crate::image_status::{
    bundle_reasons, bundle_status, bundle_summary, capability_reasons, capability_status,
    profile_problem, profile_status, profile_summary, strings_view, validate_profile,
    FloatSetting, ImageBundleStatus, ImageCapabilityCheck, ImageGenerationProfileConfig,
    ImageModelBundleConfig, ImageProfileStatus, ImageSetupFacts, PathFacts, ProfileModel,
};
use crate::text::{
    ascii_lower, ascii_lower_chars, chars_equal, chars_of, concat_chars, decimal, decimal_chars,
    index_of_char_exec, join_chars, join_with, lemma_index_of_char, string_of,
    trim, trim_str,
};

verus! {

broadcast use vstd::string::group_string_axioms;

/// The longest image prompt accepted, in characters.
pub const MAX_PROMPT_CHARS: usize = 8000;

/// The longest negative prompt accepted, in characters.
pub const MAX_NEGATIVE_PROMPT_CHARS: usize = 4000;

// ---------------------------------------------------------------------------
// Inputs and the resolved job
// ---------------------------------------------------------------------------

/// A bundle as configured, with what the file system says of its three
/// files.
#[derive(Clone, Debug)]
pub struct BundleEntry {
    pub config: ImageModelBundleConfig,
    pub transformer: PathFacts,
    pub text_encoder: PathFacts,
    pub vae: PathFacts,
}

/// An image request. The CFG scale, when given, arrives as its text and
/// whether it is finite and between 0 and 20.
#[derive(Clone, Debug)]
pub struct ImageGenerationRequest {
    pub prompt: String,
    pub session_id: Option<String>,
    pub bundle_id: Option<String>,
    pub profile_id: Option<String>,
    pub seed: Option<i64>,
    pub width: Option<u32>,
    pub height: Option<u32>,
    pub steps: Option<u32>,
    pub cfg_scale: Option<FloatSetting>,
    pub sampling_method: Option<String>,
    pub negative_prompt: Option<String>,
}

/// A job ready for the runner.
#[derive(Clone, Debug)]
pub struct ResolvedImageJob {
    pub runner_path: String,
    pub bundle: ImageModelBundleConfig,
    pub profile: ImageGenerationProfileConfig,
    pub prompt: String,
    pub negative_prompt: Option<String>,
    pub seed: i64,
    pub output_path: String,
    pub arguments: Vec<String>,
}

pub ghost struct JobModel {
    pub runner_path: Seq<char>,
    pub bundle: ImageModelBundleConfig,
    pub profile: ProfileModel,
    pub prompt: Seq<char>,
    pub negative_prompt: Option<Seq<char>>,
    pub seed: i64,
    pub output_path: Seq<char>,
    pub arguments: Seq<Seq<char>>,
}

pub open spec fn opt_view(o: Option<String>) -> Option<Seq<char>> {
    match o {
        Some(s) => Some(s@),
        None => None,
    }
}

impl ResolvedImageJob {
    pub open spec fn model(&self) -> JobModel {
        JobModel {
            runner_path: self.runner_path@,
            bundle: self.bundle,
            profile: self.profile@,
            prompt: self.prompt@,
            negative_prompt: opt_view(self.negative_prompt),
            seed: self.seed,
            output_path: self.output_path@,
            arguments: strings_view(self.arguments@),
        }
    }
}

pub open spec fn outcome_view(r: Result<ResolvedImageJob, String>) -> Result<JobModel, Seq<char>> {
    match r {
        Ok(j) => Ok(j.model()),
        Err(e) => Err(e@),
    }
}

// ---------------------------------------------------------------------------
// Readiness of the whole setup
// ---------------------------------------------------------------------------

pub open spec fn entry_reasons(e: BundleEntry) -> Seq<Seq<char>> {
    bundle_reasons(e.config, e.transformer, e.text_encoder, e.vae)
}

pub open spec fn entry_summary(es: Seq<BundleEntry>) -> Seq<(Seq<char>, bool)> {
    es.map_values(|e: BundleEntry| (e.config.id@, entry_reasons(e).len() == 0))
}

pub open spec fn config_summary(ps: Seq<ImageGenerationProfileConfig>) -> Seq<(Seq<char>, bool)> {
    ps.map_values(|p: ImageGenerationProfileConfig| (p.id@, profile_problem(p@) is None))
}

/// Every reason the setup cannot run a job.
pub open spec fn readiness_reasons(
    setup: ImageSetupFacts,
    entries: Seq<BundleEntry>,
    profiles: Seq<ImageGenerationProfileConfig>,
) -> Seq<Seq<char>> {
    capability_reasons(setup, entry_summary(entries), config_summary(profiles))
}

/// The readiness of image generation, with the status of every bundle and
/// profile: ready exactly when it is enabled and nothing is wrong.
pub fn image_readiness(
    setup: &ImageSetupFacts,
    entries: &Vec<BundleEntry>,
    profiles: &Vec<ImageGenerationProfileConfig>,
) -> (c: ImageCapabilityCheck)
    ensures
        c.enabled == setup.enabled,
        strings_view(c.reasons@) == readiness_reasons(*setup, entries@, profiles@),
        c.ready == (setup.enabled && readiness_reasons(*setup, entries@, profiles@).len() == 0),
        c.bundles.len() == entries.len(),
        c.profiles.len() == profiles.len(),
        forall|i: int| 0 <= i < entries.len() ==> strings_view((#[trigger] c.bundles@[i]).reasons@)
            == entry_reasons(entries@[i]),
        forall|i: int| 0 <= i < profiles.len() ==> (#[trigger] c.profiles@[i]).ready == (
        profile_problem(profiles@[i]@) is None),
{
    let mut bundles: Vec<ImageBundleStatus> = Vec::new();
    let mut i: usize = 0;
    while i < entries.len()
        invariant
            i <= entries.len(),
            bundles.len() == i,
            bundle_summary(bundles@) == entry_summary(entries@.take(i as int)),
            forall|k: int| 0 <= k < i ==> strings_view((#[trigger] bundles@[k]).reasons@)
                == entry_reasons(entries@[k]),
        decreases entries.len() - i,
    {
        let e = &entries[i];
        let s = bundle_status(&e.config, &e.transformer, &e.text_encoder, &e.vae);
        let ghost before = bundle_summary(bundles@);
        bundles.push(s);
        assert(bundle_summary(bundles@) =~= before.push((s.id@, s.ready)));
        i += 1;
        assert(entry_summary(entries@.take(i as int)) =~= entry_summary(entries@.take(i - 1)).push(
            (entries@[i - 1].config.id@, entry_reasons(entries@[i - 1]).len() == 0),
        ));
    }
    assert(entries@.take(i as int) =~= entries@);
    let mut statuses: Vec<ImageProfileStatus> = Vec::new();
    let mut j: usize = 0;
    while j < profiles.len()
        invariant
            j <= profiles.len(),
            statuses.len() == j,
            profile_summary(statuses@) == config_summary(profiles@.take(j as int)),
            forall|k: int| 0 <= k < j ==> (#[trigger] statuses@[k]).ready == (profile_problem(
                profiles@[k]@,
            ) is None),
        decreases profiles.len() - j,
    {
        let s = profile_status(&profiles[j]);
        let ghost before = profile_summary(statuses@);
        statuses.push(s);
        assert(profile_summary(statuses@) =~= before.push((s.id@, s.ready)));
        j += 1;
        assert(config_summary(profiles@.take(j as int)) =~= config_summary(profiles@.take(j - 1)).push(
            (profiles@[j - 1].id@, profile_problem(profiles@[j - 1]@) is None),
        ));
    }
    assert(profiles@.take(j as int) =~= profiles@);
    capability_status(setup, bundles, statuses)
}

// ---------------------------------------------------------------------------
// Resolving a request
// ---------------------------------------------------------------------------

/// Index of the first id equal to `id`.
pub open spec fn first_with_id(ids: Seq<Seq<char>>, id: Seq<char>) -> Option<int> {
    if exists|i: int| 0 <= i < ids.len() && ids[i] == id {
        Some(choose|i: int| 0 <= i < ids.len() && ids[i] == id && forall|j: int| 0 <= j < i ==> ids[j] != id)
    } else {
        None
    }
}

pub proof fn lemma_first_with_id(ids: Seq<Seq<char>>, id: Seq<char>, k: int)
    requires
        0 <= k < ids.len(),
        ids[k] == id,
        forall|j: int| 0 <= j < k ==> ids[j] != id,
    ensures
        first_with_id(ids, id) == Some(k),
{
    let c = choose|i: int| 0 <= i < ids.len() && ids[i] == id && forall|j: int| 0 <= j < i ==> ids[j] != id;
    assert(0 <= c < ids.len() && ids[c] == id && forall|j: int| 0 <= j < c ==> ids[j] != id);
    if c < k {
        assert(ids[c] != id);
    }
    if k < c {
        assert(ids[k] != id);
    }
}

pub open spec fn entry_ids(es: Seq<BundleEntry>) -> Seq<Seq<char>> {
    es.map_values(|e: BundleEntry| e.config.id@)
}

pub open spec fn config_ids(ps: Seq<ImageGenerationProfileConfig>) -> Seq<Seq<char>> {
    ps.map_values(|p: ImageGenerationProfileConfig| p.id@)
}

/// What is wrong with a (trimmed) prompt, if anything.
pub open spec fn prompt_problem(prompt: Seq<char>) -> Option<Seq<char>> {
    if prompt.len() == 0 {
        Some("Image prompt cannot be empty"@)
    } else if prompt.len() > MAX_PROMPT_CHARS {
        Some("Image prompt exceeds the 8000 character limit"@)
    } else if prompt.contains('\0') {
        Some("Image prompt contains an invalid null character"@)
    } else {
        None
    }
}

/// The negative prompt, trimmed, when there is one left.
pub open spec fn negative_of(r: ImageGenerationRequest) -> Option<Seq<char>> {
    match r.negative_prompt {
        Some(n) => if trim(n@).len() == 0 { None } else { Some(trim(n@)) },
        None => None,
    }
}

pub open spec fn negative_problem(neg: Option<Seq<char>>) -> Option<Seq<char>> {
    match neg {
        Some(n) => if n.len() > MAX_NEGATIVE_PROMPT_CHARS {
            Some("Negative image prompt exceeds the 4000 character limit"@)
        } else if n.contains('\0') {
            Some("Negative image prompt contains an invalid null character"@)
        } else {
            None
        },
        None => None,
    }
}

/// The profile with the request's overrides applied; a requested sampler
/// is trimmed and lower-cased.
pub open spec fn overridden(p: ProfileModel, r: ImageGenerationRequest) -> ProfileModel {
    ProfileModel {
        id: p.id,
        name: p.name,
        width: match r.width { Some(w) => w, None => p.width },
        height: match r.height { Some(h) => h, None => p.height },
        steps: match r.steps { Some(s) => s, None => p.steps },
        sampling_method: match r.sampling_method {
            Some(m) => ascii_lower(trim(m@)),
            None => p.sampling_method,
        },
        cfg_scale: match r.cfg_scale { Some(c) => c@, None => p.cfg_scale },
        flow_shift: p.flow_shift,
        max_vram_gib: p.max_vram_gib,
        timeout_seconds: p.timeout_seconds,
        auto_fit: p.auto_fit,
        diffusion_flash_attention: p.diffusion_flash_attention,
    }
}

/// The runner's arguments for a job: the prompt is one argument, and only
/// the flags below are ever passed.
pub open spec fn native_arguments(
    b: ImageModelBundleConfig,
    p: ProfileModel,
    prompt: Seq<char>,
    negative: Option<Seq<char>>,
    seed: i64,
    output_path: Seq<char>,
) -> Seq<Seq<char>> {
    seq![
        "--diffusion-model"@, b.transformer_path@, "--vae"@, b.vae_path@, "--llm"@,
        b.text_encoder_path@, "-p"@, prompt, "--cfg-scale"@, p.cfg_scale.0,
        "--sampling-method"@, p.sampling_method, "--flow-shift"@, p.flow_shift.0,
        "-W"@, decimal(p.width as nat), "-H"@, decimal(p.height as nat),
        "--steps"@, decimal(p.steps as nat), "--seed"@, signed_text(seed as int),
        "--rng"@, "cuda"@, "--output"@, output_path, "--max-vram"@, p.max_vram_gib.0,
        "--verbose"@,
    ] + (if p.auto_fit { seq!["--auto-fit"@] } else { Seq::empty() })
        + (if p.diffusion_flash_attention { seq!["--diffusion-fa"@] } else { Seq::empty() })
        + match negative {
        Some(n) => seq!["-n"@, n],
        None => Seq::empty(),
    }
}

/// The job for a request once the bundle is chosen and found sound.
pub open spec fn profile_outcome(
    setup: ImageSetupFacts,
    bundle: ImageModelBundleConfig,
    profiles: Seq<ImageGenerationProfileConfig>,
    req: ImageGenerationRequest,
    prompt: Seq<char>,
    output_path: Seq<char>,
    seed: i64,
) -> Result<JobModel, Seq<char>> {
    let pid = match req.profile_id { Some(x) => x@, None => setup.default_profile@ };
    match first_with_id(config_ids(profiles), pid) {
        None => Err("Unknown image profile: "@ + pid),
        Some(pi) => match profile_problem(profiles[pi]@) {
            Some(m) => Err(m),
            None => {
                let p = overridden(profiles[pi]@, req);
                match profile_problem(p) {
                    Some(m) => Err(m),
                    None => {
                        let neg = negative_of(req);
                        match negative_problem(neg) {
                            Some(m) => Err(m),
                            None => {
                                let runner = trim(setup.runner_path@);
                                if runner.len() == 0 {
                                    Err("Image runner path is not configured"@)
                                } else {
                                    Ok(
                                        JobModel {
                                            runner_path: runner,
                                            bundle,
                                            profile: p,
                                            prompt,
                                            negative_prompt: neg,
                                            seed,
                                            output_path,
                                            arguments: native_arguments(bundle, p, prompt, neg, seed, output_path),
                                        },
                                    )
                                }
                            },
                        }
                    },
                }
            },
        },
    }
}

/// The job for a request, or why there is none, with `seed` as the seed
/// used when the request names none.
pub open spec fn job_outcome(
    setup: ImageSetupFacts,
    entries: Seq<BundleEntry>,
    profiles: Seq<ImageGenerationProfileConfig>,
    req: ImageGenerationRequest,
    output_path: Seq<char>,
    fallback_seed: i64,
) -> Result<JobModel, Seq<char>> {
    let reasons = readiness_reasons(setup, entries, profiles);
    if !(setup.enabled && reasons.len() == 0) {
        Err(join_with(reasons, "; "@))
    } else {
        let prompt = trim(req.prompt@);
        match prompt_problem(prompt) {
            Some(m) => Err(m),
            None => {
                let bid = match req.bundle_id { Some(x) => x@, None => setup.default_bundle@ };
                match first_with_id(entry_ids(entries), bid) {
                    None => Err("Unknown image bundle: "@ + bid),
                    Some(bi) => if entry_reasons(entries[bi]).len() > 0 {
                        Err(join_with(entry_reasons(entries[bi]), "; "@))
                    } else {
                        let seed = match req.seed { Some(s) => s, None => fallback_seed };
                        profile_outcome(setup, entries[bi].config, profiles, req, prompt, output_path, seed)
                    },
                }
            },
        }
    }
}

/// The native arguments end with `-n` and the negative prompt exactly when
/// one is given.
proof fn lemma_negative_tail(
    b: ImageModelBundleConfig,
    p: ProfileModel,
    prompt: Seq<char>,
    negative: Option<Seq<char>>,
    seed: i64,
    output_path: Seq<char>,
)
    ensures
        ({
            let a = native_arguments(b, p, prompt, negative, seed, output_path);
            negative matches Some(n) ==> a.len() >= 2 && a[a.len() - 2] == "-n"@ && a[a.len() - 1] == n
        }),
{
    let a = native_arguments(b, p, prompt, negative, seed, output_path);
    if let Some(n) = negative {
        let head = a.take(a.len() - 2);
        assert(a =~= head + seq!["-n"@, n]);
    }
}

/// The runner's arguments pass each setting after its own flag: the three
/// model files, the prompt, the guidance scale, the sampler, the flow
/// shift, the width, the height, the step count, the seed, the output file
/// and the memory limit, in that order; then the optional switches, and the
/// negative prompt last.
pub proof fn lemma_native_argument_values(
    b: ImageModelBundleConfig,
    p: ProfileModel,
    prompt: Seq<char>,
    negative: Option<Seq<char>>,
    seed: i64,
    output_path: Seq<char>,
)
    ensures
        ({
            let a = native_arguments(b, p, prompt, negative, seed, output_path);
            &&& a.len() == 29 + (if p.auto_fit { 1int } else { 0 }) + (if p.diffusion_flash_attention {
                1int
            } else {
                0
            }) + (if negative is Some { 2int } else { 0 })
            &&& a[0] == "--diffusion-model"@ && a[1] == b.transformer_path@
            &&& a[2] == "--vae"@ && a[3] == b.vae_path@
            &&& a[4] == "--llm"@ && a[5] == b.text_encoder_path@
            &&& a[6] == "-p"@ && a[7] == prompt
            &&& a[8] == "--cfg-scale"@ && a[9] == p.cfg_scale.0
            &&& a[10] == "--sampling-method"@ && a[11] == p.sampling_method
            &&& a[12] == "--flow-shift"@ && a[13] == p.flow_shift.0
            &&& a[14] == "-W"@ && a[15] == decimal(p.width as nat)
            &&& a[16] == "-H"@ && a[17] == decimal(p.height as nat)
            &&& a[18] == "--steps"@ && a[19] == decimal(p.steps as nat)
            &&& a[20] == "--seed"@ && a[21] == signed_text(seed as int)
            &&& a[22] == "--rng"@ && a[23] == "cuda"@
            &&& a[24] == "--output"@ && a[25] == output_path
            &&& a[26] == "--max-vram"@ && a[27] == p.max_vram_gib.0
            &&& a[28] == "--verbose"@
            &&& p.auto_fit ==> a[29] == "--auto-fit"@
            &&& p.diffusion_flash_attention ==> a[29 + (if p.auto_fit { 1int } else { 0 })] == "--diffusion-fa"@
        }),
{
}

/// A resolved job hands the runner what the job records: its arguments are
/// the native arguments for the job's own bundle, profile, prompt, negative
/// prompt, seed and output path, so a given negative prompt ends them as
/// `-n` and its text. That negative prompt is the request's, trimmed, when
/// it is not blank; the prompt is the request's, trimmed; the seed is the
/// request's or else the fallback; the output path is the one given.
pub proof fn lemma_job_hands_runner_its_fields(
    setup: ImageSetupFacts,
    entries: Seq<BundleEntry>,
    profiles: Seq<ImageGenerationProfileConfig>,
    req: ImageGenerationRequest,
    output_path: Seq<char>,
    fallback_seed: i64,
)
    ensures
        job_outcome(setup, entries, profiles, req, output_path, fallback_seed) matches Ok(j) ==> {
            &&& j.arguments == native_arguments(j.bundle, j.profile, j.prompt, j.negative_prompt, j.seed, j.output_path)
            &&& j.negative_prompt matches Some(n) ==> j.arguments.len() >= 2 && j.arguments[j.arguments.len() - 2]
                == "-n"@ && j.arguments[j.arguments.len() - 1] == n
            &&& j.negative_prompt == (match req.negative_prompt {
                Some(n) => if trim(n@).len() == 0 {
                    None
                } else {
                    Some(trim(n@))
                },
                None => None,
            })
            &&& j.prompt == trim(req.prompt@)
            &&& j.seed == (match req.seed {
                Some(s) => s,
                None => fallback_seed,
            })
            &&& j.output_path == output_path
        },
{
    if let Ok(j) = job_outcome(setup, entries, profiles, req, output_path, fallback_seed) {
        lemma_negative_tail(j.bundle, j.profile, j.prompt, j.negative_prompt, j.seed, j.output_path);
    }
}

// ---------------------------------------------------------------------------
// Executable parts
// ---------------------------------------------------------------------------

/// The bytes of a fresh random UUID, from `uuid::Uuid::new_v4`. Nothing is
/// promised of them: they come from the operating system's random source.
#[verifier::external_body]
fn random_uuid_bytes() -> (b: [u8; 16]) {
    *uuid::Uuid::new_v4().as_bytes()
}

/// A random seed: the first four bytes of a fresh UUID, little-endian.
fn random_seed() -> (s: i64)
    ensures
        0 <= s <= u32::MAX,
{
    let b = random_uuid_bytes();
    let v: u64 = (b[0] as u64) + (b[1] as u64) * 256 + (b[2] as u64) * 65536 + (b[3] as u64) * 16777216;
    v as i64
}

/// `v` joined with `sep` between neighbours.
pub fn join_strings(v: &Vec<String>, sep: &str) -> (r: String)
    ensures
        r@ == join_with(strings_view(v@), sep@),
{
    let mut parts: Vec<Vec<char>> = Vec::new();
    let mut i: usize = 0;
    while i < v.len()
        invariant
            i <= v.len(),
            parts@.map_values(|p: Vec<char>| p@) == strings_view(v@).take(i as int),
        decreases v.len() - i,
    {
        let c = chars_of(v[i].as_str());
        let ghost before = parts@.map_values(|p: Vec<char>| p@);
        parts.push(c);
        assert(parts@.map_values(|p: Vec<char>| p@) =~= before.push(c@));
        i += 1;
        assert(strings_view(v@).take(i as int) =~= strings_view(v@).take(i - 1).push(v@[i - 1]@));
    }
    assert(strings_view(v@).take(i as int) =~= strings_view(v@));
    string_of(&join_chars(&parts, &chars_of(sep)))
}

fn has_nul(v: &[char]) -> (b: bool)
    ensures
        b == v@.contains('\0'),
{
    proof {
        lemma_index_of_char(v@, '\0');
    }
    match index_of_char_exec(v, '\0') {
        Some(k) => {
            assert(v@[k as int] == '\0');
            true
        },
        None => false,
    }
}

fn find_entry(entries: &Vec<BundleEntry>, id: &[char]) -> (r: Option<usize>)
    ensures
        match r {
            Some(k) => k < entries.len() && first_with_id(entry_ids(entries@), id@) == Some(k as int),
            None => first_with_id(entry_ids(entries@), id@) is None,
        },
{
    let ghost ids = entry_ids(entries@);
    let mut i: usize = 0;
    while i < entries.len()
        invariant
            i <= entries.len(),
            ids == entry_ids(entries@),
            forall|j: int| 0 <= j < i ==> ids[j] != id@,
        decreases entries.len() - i,
    {
        assert(ids[i as int] == entries@[i as int].config.id@);
        if chars_equal(&chars_of(entries[i].config.id.as_str()), id) {
            proof {
                lemma_first_with_id(ids, id@, i as int);
            }
            return Some(i);
        }
        i += 1;
    }
    None
}

fn find_profile(profiles: &Vec<ImageGenerationProfileConfig>, id: &[char]) -> (r: Option<usize>)
    ensures
        match r {
            Some(k) => k < profiles.len() && first_with_id(config_ids(profiles@), id@) == Some(k as int),
            None => first_with_id(config_ids(profiles@), id@) is None,
        },
{
    let ghost ids = config_ids(profiles@);
    let mut i: usize = 0;
    while i < profiles.len()
        invariant
            i <= profiles.len(),
            ids == config_ids(profiles@),
            forall|j: int| 0 <= j < i ==> ids[j] != id@,
        decreases profiles.len() - i,
    {
        assert(ids[i as int] == profiles@[i as int].id@);
        if chars_equal(&chars_of(profiles[i].id.as_str()), id) {
            proof {
                lemma_first_with_id(ids, id@, i as int);
            }
            return Some(i);
        }
        i += 1;
    }
    None
}

/// Decimal text of a seed.
fn seed_text(i: i64) -> (r: Vec<char>)
    ensures
        r@ == signed_text(i as int),
{
    if i < 0 {
        let wide: i128 = i as i128;
        let m: u64 = (0 - wide) as u64;
        assert(m == -(i as int));
        let d = decimal_chars(m);
        concat_chars(&['-'], &d)
    } else {
        decimal_chars(i as u64)
    }
}

fn clone_float(f: &FloatSetting) -> (r: FloatSetting)
    ensures
        r@ == f@,
{
    FloatSetting { text: f.text.clone(), in_range: f.in_range }
}

fn clone_bundle(b: &ImageModelBundleConfig) -> (r: ImageModelBundleConfig)
    ensures
        r == *b,
{
    ImageModelBundleConfig {
        id: b.id.clone(),
        name: b.name.clone(),
        architecture: b.architecture.clone(),
        quantization: b.quantization.clone(),
        transformer_path: b.transformer_path.clone(),
        text_encoder_path: b.text_encoder_path.clone(),
        vae_path: b.vae_path.clone(),
    }
}

/// The profile with the request's overrides applied.
fn apply_overrides(p: &ImageGenerationProfileConfig, req: &ImageGenerationRequest) -> (r: ImageGenerationProfileConfig)
    ensures
        r@ == overridden(p@, *req),
{
    let sampling_method = match &req.sampling_method {
        Some(m) => string_of(&ascii_lower_chars(&trim_str(m.as_str()))),
        None => p.sampling_method.clone(),
    };
    let cfg_scale = match &req.cfg_scale {
        Some(c) => clone_float(c),
        None => clone_float(&p.cfg_scale),
    };
    ImageGenerationProfileConfig {
        id: p.id.clone(),
        name: p.name.clone(),
        width: match req.width { Some(w) => w, None => p.width },
        height: match req.height { Some(h) => h, None => p.height },
        steps: match req.steps { Some(s) => s, None => p.steps },
        sampling_method,
        cfg_scale,
        flow_shift: clone_float(&p.flow_shift),
        max_vram_gib: clone_float(&p.max_vram_gib),
        timeout_seconds: p.timeout_seconds,
        auto_fit: p.auto_fit,
        diffusion_flash_attention: p.diffusion_flash_attention,
    }
}

fn push_text(v: &mut Vec<String>, s: String)
    ensures
        strings_view(final(v)@) == strings_view(old(v)@).push(s@),
{
    let ghost before = strings_view(v@);
    v.push(s);
    assert(strings_view(v@) =~= before.push(s@));
}

/// The runner's argument list for a job.
pub fn build_native_arguments(
    bundle: &ImageModelBundleConfig,
    profile: &ImageGenerationProfileConfig,
    prompt: &str,
    negative_prompt: Option<&str>,
    seed: i64,
    output_path: &str,
) -> (r: Vec<String>)
    ensures
        strings_view(r@) == native_arguments(
            *bundle,
            profile@,
            prompt@,
            match negative_prompt { Some(n) => Some(n@), None => None },
            seed,
            output_path@,
        ),
{
    let mut a: Vec<String> = Vec::new();
    push_text(&mut a, "--diffusion-model".to_string());
    push_text(&mut a, bundle.transformer_path.clone());
    push_text(&mut a, "--vae".to_string());
    push_text(&mut a, bundle.vae_path.clone());
    push_text(&mut a, "--llm".to_string());
    push_text(&mut a, bundle.text_encoder_path.clone());
    push_text(&mut a, "-p".to_string());
    push_text(&mut a, prompt.to_string());
    push_text(&mut a, "--cfg-scale".to_string());
    push_text(&mut a, profile.cfg_scale.text.clone());
    push_text(&mut a, "--sampling-method".to_string());
    push_text(&mut a, profile.sampling_method.clone());
    push_text(&mut a, "--flow-shift".to_string());
    push_text(&mut a, profile.flow_shift.text.clone());
    push_text(&mut a, "-W".to_string());
    push_text(&mut a, string_of(&decimal_chars(profile.width as u64)));
    push_text(&mut a, "-H".to_string());
    push_text(&mut a, string_of(&decimal_chars(profile.height as u64)));
    push_text(&mut a, "--steps".to_string());
    push_text(&mut a, string_of(&decimal_chars(profile.steps as u64)));
    push_text(&mut a, "--seed".to_string());
    push_text(&mut a, string_of(&seed_text(seed)));
    push_text(&mut a, "--rng".to_string());
    push_text(&mut a, "cuda".to_string());
    push_text(&mut a, "--output".to_string());
    push_text(&mut a, output_path.to_string());
    push_text(&mut a, "--max-vram".to_string());
    push_text(&mut a, profile.max_vram_gib.text.clone());
    push_text(&mut a, "--verbose".to_string());
    let ghost fixed = strings_view(a@);
    if profile.auto_fit {
        push_text(&mut a, "--auto-fit".to_string());
    }
    let ghost with_fit = strings_view(a@);
    if profile.diffusion_flash_attention {
        push_text(&mut a, "--diffusion-fa".to_string());
    }
    let ghost with_fa = strings_view(a@);
    if let Some(n) = negative_prompt {
        push_text(&mut a, "-n".to_string());
        push_text(&mut a, n.to_string());
    }
    proof {
        let neg = match negative_prompt { Some(n) => Some(n@), None => None };
        let head = seq![
            "--diffusion-model"@, bundle.transformer_path@, "--vae"@, bundle.vae_path@, "--llm"@,
            bundle.text_encoder_path@, "-p"@, prompt@, "--cfg-scale"@, profile@.cfg_scale.0,
            "--sampling-method"@, profile@.sampling_method, "--flow-shift"@, profile@.flow_shift.0,
            "-W"@, decimal(profile.width as nat), "-H"@, decimal(profile.height as nat),
            "--steps"@, decimal(profile.steps as nat), "--seed"@, signed_text(seed as int),
            "--rng"@, "cuda"@, "--output"@, output_path@, "--max-vram"@, profile@.max_vram_gib.0,
            "--verbose"@,
        ];
        assert(fixed =~= head);
        let fit: Seq<Seq<char>> = if profile.auto_fit { seq!["--auto-fit"@] } else { Seq::empty() };
        let fa: Seq<Seq<char>> = if profile.diffusion_flash_attention { seq!["--diffusion-fa"@] } else { Seq::empty() };
        let tail: Seq<Seq<char>> = match neg { Some(n) => seq!["-n"@, n], None => Seq::empty() };
        assert(with_fit =~= head + fit);
        assert(with_fa =~= head + fit + fa);
        assert(strings_view(a@) =~= head + fit + fa + tail);
    }
    a
}

fn opt_str(o: &Option<String>) -> (r: Option<&str>)
    ensures
        match r { Some(x) => Some(x@), None => None::<Seq<char>> } == opt_view(*o),
{
    match o {
        Some(x) => Some(x.as_str()),
        None => None,
    }
}

/// The trimmed negative prompt of a request, when one is left.
fn negative_text(req: &ImageGenerationRequest) -> (r: Option<String>)
    ensures
        opt_view(r) == negative_of(*req),
{
    match &req.negative_prompt {
        Some(n) => {
            let t = trim_str(n.as_str());
            if t.len() == 0 {
                None
            } else {
                Some(string_of(&t))
            }
        },
        None => None,
    }
}

fn text2(a: &str, b: &[char]) -> (r: String)
    ensures
        r@ == a@ + b@,
{
    string_of(&concat_chars(&chars_of(a), b))
}

/// The job once the bundle is chosen and found sound.
fn resolve_profile(
    setup: &ImageSetupFacts,
    bundle: &ImageModelBundleConfig,
    profiles: &Vec<ImageGenerationProfileConfig>,
    req: &ImageGenerationRequest,
    prompt: &Vec<char>,
    output_path: &str,
    seed: i64,
) -> (r: Result<ResolvedImageJob, String>)
    ensures
        outcome_view(r) == profile_outcome(*setup, *bundle, profiles@, *req, prompt@, output_path@, seed),
{
    let pid = match &req.profile_id {
        Some(x) => chars_of(x.as_str()),
        None => chars_of(setup.default_profile.as_str()),
    };
    let pi = match find_profile(profiles, &pid) {
        Some(k) => k,
        None => {
            return Err(text2("Unknown image profile: ", &pid));
        },
    };
    if let Err(m) = validate_profile(&profiles[pi]) {
        return Err(m);
    }
    let profile = apply_overrides(&profiles[pi], req);
    if let Err(m) = validate_profile(&profile) {
        return Err(m);
    }
    let neg = negative_text(req);
    if let Some(n) = &neg {
        let nc = chars_of(n.as_str());
        if nc.len() > MAX_NEGATIVE_PROMPT_CHARS {
            return Err("Negative image prompt exceeds the 4000 character limit".to_string());
        }
        if has_nul(&nc) {
            return Err("Negative image prompt contains an invalid null character".to_string());
        }
    }
    let runner = trim_str(setup.runner_path.as_str());
    if runner.len() == 0 {
        return Err("Image runner path is not configured".to_string());
    }
    let prompt_text = string_of(prompt);
    let arguments = build_native_arguments(bundle, &profile, prompt_text.as_str(), opt_str(&neg), seed, output_path);
    let job = ResolvedImageJob {
        runner_path: string_of(&runner),
        bundle: clone_bundle(bundle),
        profile,
        prompt: prompt_text,
        negative_prompt: neg,
        seed,
        output_path: output_path.to_string(),
        arguments,
    };
    Ok(job)
}

/// Resolve a request into a job for the runner, with `fallback_seed` as
/// the seed when the request names none. `Ok` exactly when the setup is
/// ready, the prompts pass their checks, and the bundle and profile the
/// request names (or the defaults) exist and are sound before and after
/// the request's overrides.
pub fn resolve_job_with_seed(
    setup: &ImageSetupFacts,
    entries: &Vec<BundleEntry>,
    profiles: &Vec<ImageGenerationProfileConfig>,
    req: &ImageGenerationRequest,
    output_path: &str,
    fallback_seed: i64,
) -> (r: Result<ResolvedImageJob, String>)
    ensures
        outcome_view(r) == job_outcome(*setup, entries@, profiles@, *req, output_path@, fallback_seed),
{
    let status = image_readiness(setup, entries, profiles);
    if !status.ready {
        return Err(join_strings(&status.reasons, "; "));
    }
    let prompt = trim_str(req.prompt.as_str());
    if prompt.len() == 0 {
        return Err("Image prompt cannot be empty".to_string());
    }
    if prompt.len() > MAX_PROMPT_CHARS {
        return Err("Image prompt exceeds the 8000 character limit".to_string());
    }
    if has_nul(&prompt) {
        return Err("Image prompt contains an invalid null character".to_string());
    }
    let bid = match &req.bundle_id {
        Some(x) => chars_of(x.as_str()),
        None => chars_of(setup.default_bundle.as_str()),
    };
    let bi = match find_entry(entries, &bid) {
        Some(k) => k,
        None => {
            return Err(text2("Unknown image bundle: ", &bid));
        },
    };
    let e = &entries[bi];
    let check = bundle_status(&e.config, &e.transformer, &e.text_encoder, &e.vae);
    if !check.ready {
        return Err(join_strings(&check.reasons, "; "));
    }
    let seed = match req.seed {
        Some(s) => s,
        None => fallback_seed,
    };
    resolve_profile(setup, &e.config, profiles, req, &prompt, output_path, seed)
}

/// Resolve a request into a job for the runner. When the request names no
/// seed, a random one from 0 to `u32::MAX` is drawn; the result is then
/// that of [`resolve_job_with_seed`] with it.
pub fn resolve_job(
    setup: &ImageSetupFacts,
    entries: &Vec<BundleEntry>,
    profiles: &Vec<ImageGenerationProfileConfig>,
    req: &ImageGenerationRequest,
    output_path: &str,
) -> (r: Result<ResolvedImageJob, String>)
    ensures
        exists|s: i64|
            0 <= s <= u32::MAX && outcome_view(r) == #[trigger] job_outcome(*setup, entries@, profiles@, *req, output_path@, s),
        req.seed is Some ==> outcome_view(r) == job_outcome(*setup, entries@, profiles@, *req, output_path@, 0),
{
    let fallback = match req.seed {
        Some(_) => 0,
        None => random_seed(),
    };
    resolve_job_with_seed(setup, entries, profiles, req, output_path, fallback)
}

/// What a preview of an image job shows.
#[derive(Clone, Debug)]
pub struct ImageGenerationPreview {
    pub bundle_id: String,
    pub bundle_name: String,
    pub profile_id: String,
    pub profile_name: String,
    pub width: u32,
    pub height: u32,
    pub steps: u32,
    pub seed: i64,
    pub output_path: String,
    pub arguments: Vec<String>,
}

pub open spec fn preview_shows(p: ImageGenerationPreview, j: JobModel) -> bool {
    &&& p.bundle_id@ == j.bundle.id@
    &&& p.bundle_name@ == j.bundle.name@
    &&& p.profile_id@ == j.profile.id
    &&& p.profile_name@ == j.profile.name
    &&& p.width == j.profile.width
    &&& p.height == j.profile.height
    &&& p.steps == j.profile.steps
    &&& p.seed == j.seed
    &&& p.output_path@ == j.output_path
    &&& strings_view(p.arguments@) == j.arguments
}

/// The preview of a resolved job.
pub fn preview_of(job: ResolvedImageJob) -> (p: ImageGenerationPreview)
    ensures
        preview_shows(p, job.model()),
{
    ImageGenerationPreview {
        bundle_id: job.bundle.id,
        bundle_name: job.bundle.name,
        profile_id: job.profile.id,
        profile_name: job.profile.name,
        width: job.profile.width,
        height: job.profile.height,
        steps: job.profile.steps,
        seed: job.seed,
        output_path: job.output_path,
        arguments: job.arguments,
    }
}

/// Preview the job a request would run, writing to `output_path` (the
/// preview file in the output directory): the job's preview, or why there
/// is no job.
pub fn build_preview(
    setup: &ImageSetupFacts,
    entries: &Vec<BundleEntry>,
    profiles: &Vec<ImageGenerationProfileConfig>,
    req: &ImageGenerationRequest,
    output_path: &str,
) -> (r: Result<ImageGenerationPreview, String>)
    ensures
        exists|s: i64|
            0 <= s <= u32::MAX && match (r, #[trigger] job_outcome(*setup, entries@, profiles@, *req, output_path@, s)) {
                (Ok(p), Ok(j)) => preview_shows(p, j),
                (Err(e), Err(m)) => e@ == m,
                _ => false,
            },
{
    match resolve_job(setup, entries, profiles, req, output_path) {
        Ok(job) => Ok(preview_of(job)),
        Err(e) => Err(e),
    }
}

} // verus!

//! Whether local image generation is ready: the checks on each image
//! profile, on each model bundle and on the setup as a whole, with the
//! reasons shown to the user when something is wrong.
//!
//! What only the file system can say (whether a path is absolute, exists,
//! is a file or a directory) and the range checks on the floating-point
//! settings arrive as plain facts; the rules that turn them into reasons
//! are here.

use vstd::prelude::*;
use crate::text::{
    ascii_lower, ascii_lower_chars, chars_equal, chars_of, concat_chars, string_of, trim,
    trim_str,
};

verus! {

broadcast use vstd::string::group_string_axioms;

/// The largest width or height an image profile may ask for.
pub const MAX_IMAGE_DIMENSION: u32 = 2048;

/// `a` followed by `b`, as a string.
fn text2(a: &str, b: &[char]) -> (r: String)
    ensures
        r@ == a@ + b@,
{
    string_of(&concat_chars(&chars_of(a), b))
}

/// `a`, `b` and `c` in a row, as a string.
fn text3(a: &[char], b: &str, c: &[char]) -> (r: String)
    ensures
        r@ == a@ + b@ + c@,
{
    string_of(&concat_chars(&concat_chars(a, &chars_of(b)), c))
}

// ---------------------------------------------------------------------------
// Profiles
// ---------------------------------------------------------------------------

/// A floating-point setting as the library handles it: its text as the
/// number prints, and whether it is finite and within the range allowed
/// for that setting.
#[derive(Clone, Debug)]
pub struct FloatSetting {
    pub text: String,
    pub in_range: bool,
}

/// An image profile as configured: size, steps, sampler and the runner's
/// other settings.
#[derive(Clone, Debug)]
pub struct ImageGenerationProfileConfig {
    pub id: String,
    pub name: String,
    pub width: u32,
    pub height: u32,
    pub steps: u32,
    pub sampling_method: String,
    /// In range from 0 to 20.
    pub cfg_scale: FloatSetting,
    /// In range from -20 to 20.
    pub flow_shift: FloatSetting,
    /// In range from -16 to 128.
    pub max_vram_gib: FloatSetting,
    pub timeout_seconds: u64,
    pub auto_fit: bool,
    pub diffusion_flash_attention: bool,
}

impl View for FloatSetting {
    type V = (Seq<char>, bool);

    open spec fn view(&self) -> (Seq<char>, bool) {
        (self.text@, self.in_range)
    }
}

/// A profile's settings as values.
pub ghost struct ProfileModel {
    pub id: Seq<char>,
    pub name: Seq<char>,
    pub width: u32,
    pub height: u32,
    pub steps: u32,
    pub sampling_method: Seq<char>,
    pub cfg_scale: (Seq<char>, bool),
    pub flow_shift: (Seq<char>, bool),
    pub max_vram_gib: (Seq<char>, bool),
    pub timeout_seconds: u64,
    pub auto_fit: bool,
    pub diffusion_flash_attention: bool,
}

impl View for ImageGenerationProfileConfig {
    type V = ProfileModel;

    open spec fn view(&self) -> ProfileModel {
        ProfileModel {
            id: self.id@,
            name: self.name@,
            width: self.width,
            height: self.height,
            steps: self.steps,
            sampling_method: self.sampling_method@,
            cfg_scale: self.cfg_scale@,
            flow_shift: self.flow_shift@,
            max_vram_gib: self.max_vram_gib@,
            timeout_seconds: self.timeout_seconds,
            auto_fit: self.auto_fit,
            diffusion_flash_attention: self.diffusion_flash_attention,
        }
    }
}

pub open spec fn dimension_ok(d: u32) -> bool {
    64 <= d <= MAX_IMAGE_DIMENSION && d % 16 == 0
}

/// The samplers the native runner accepts.
pub open spec fn allowed_sampler(m: Seq<char>) -> bool {
    m == "euler"@ || m == "euler_a"@ || m == "heun"@ || m == "dpm2"@ || m == "dpm++2m"@
}

/// The first thing wrong with a profile, if anything is.
pub open spec fn profile_problem(p: ProfileModel) -> Option<Seq<char>> {
    if trim(p.id).len() == 0 {
        Some("Image profile id is empty"@)
    } else if !(dimension_ok(p.width) && dimension_ok(p.height)) {
        Some("Image dimensions must be multiples of 16 between 64 and 2048"@)
    } else if !(1 <= p.steps <= 150) {
        Some("Image steps must be between 1 and 150"@)
    } else if !allowed_sampler(p.sampling_method) {
        Some("Unsupported image sampler: "@ + p.sampling_method)
    } else if !p.cfg_scale.1 {
        Some("Image CFG scale must be between 0 and 20"@)
    } else if !p.flow_shift.1 {
        Some("Image flow shift must be between -20 and 20"@)
    } else if !p.max_vram_gib.1 {
        Some("Image max VRAM must be between -16 and 128 GiB"@)
    } else if p.timeout_seconds < 30 || p.timeout_seconds > 14_400 {
        Some("Image timeout must be between 30 seconds and 4 hours"@)
    } else {
        None
    }
}

fn is_allowed_sampler(m: &str) -> (b: bool)
    ensures
        b == allowed_sampler(m@),
{
    let v = chars_of(m);
    chars_equal(&v, &chars_of("euler")) || chars_equal(&v, &chars_of("euler_a"))
        || chars_equal(&v, &chars_of("heun")) || chars_equal(&v, &chars_of("dpm2"))
        || chars_equal(&v, &chars_of("dpm++2m"))
}

/// Check an image profile: `Ok` exactly when nothing is wrong with it,
/// else the first problem found.
pub fn validate_profile(profile: &ImageGenerationProfileConfig) -> (r: Result<(), String>)
    ensures
        match profile_problem(profile@) {
            Some(m) => r matches Err(e) && e@ == m,
            None => r is Ok,
        },
{
    if trim_str(profile.id.as_str()).len() == 0 {
        return Err("Image profile id is empty".to_string());
    }
    if !(64 <= profile.width && profile.width <= MAX_IMAGE_DIMENSION) || !(64 <= profile.height
        && profile.height <= MAX_IMAGE_DIMENSION) || profile.width % 16 != 0 || profile.height % 16
        != 0 {
        return Err("Image dimensions must be multiples of 16 between 64 and 2048".to_string());
    }
    if !(1 <= profile.steps && profile.steps <= 150) {
        return Err("Image steps must be between 1 and 150".to_string());
    }
    if !is_allowed_sampler(profile.sampling_method.as_str()) {
        return Err(text2("Unsupported image sampler: ", &chars_of(profile.sampling_method.as_str())));
    }
    if !profile.cfg_scale.in_range {
        return Err("Image CFG scale must be between 0 and 20".to_string());
    }
    if !profile.flow_shift.in_range {
        return Err("Image flow shift must be between -20 and 20".to_string());
    }
    if !profile.max_vram_gib.in_range {
        return Err("Image max VRAM must be between -16 and 128 GiB".to_string());
    }
    if profile.timeout_seconds < 30 || profile.timeout_seconds > 14_400 {
        return Err("Image timeout must be between 30 seconds and 4 hours".to_string());
    }
    Ok(())
}

/// What the settings screen shows of a profile.
#[derive(Clone, Debug)]
pub struct ImageProfileStatus {
    pub id: String,
    pub name: String,
    pub width: u32,
    pub height: u32,
    pub steps: u32,
    pub ready: bool,
    pub reason: Option<String>,
}

/// A profile's status: ready exactly when it validates, with the problem
/// as the reason otherwise.
pub fn profile_status(profile: &ImageGenerationProfileConfig) -> (s: ImageProfileStatus)
    ensures
        s.id@ == profile.id@,
        s.name@ == profile.name@,
        s.width == profile.width,
        s.height == profile.height,
        s.steps == profile.steps,
        s.ready == (profile_problem(profile@) is None),
        match profile_problem(profile@) {
            Some(m) => s.reason matches Some(e) && e@ == m,
            None => s.reason is None,
        },
{
    let reason = match validate_profile(profile) {
        Ok(()) => None,
        Err(e) => Some(e),
    };
    ImageProfileStatus {
        id: profile.id.clone(),
        name: profile.name.clone(),
        width: profile.width,
        height: profile.height,
        steps: profile.steps,
        ready: reason.is_none(),
        reason,
    }
}

// ---------------------------------------------------------------------------
// Bundles
// ---------------------------------------------------------------------------

/// What the file system says of a configured path (after trimming).
#[derive(Clone, Debug)]
pub struct PathFacts {
    pub absolute: bool,
    pub exists: bool,
    pub is_file: bool,
    pub is_dir: bool,
    /// The file name's extension, as the platform splits it off.
    pub extension: Option<String>,
}

/// A model bundle for the image runner, as configured.
#[derive(Clone, Debug)]
pub struct ImageModelBundleConfig {
    pub id: String,
    pub name: String,
    pub architecture: String,
    pub quantization: String,
    pub transformer_path: String,
    pub text_encoder_path: String,
    pub vae_path: String,
}

/// What the settings screen shows of a bundle.
#[derive(Clone, Debug)]
pub struct ImageBundleStatus {
    pub id: String,
    pub name: String,
    pub architecture: String,
    pub quantization: String,
    pub ready: bool,
    pub reasons: Vec<String>,
}

pub open spec fn ext_text(f: PathFacts) -> Seq<char> {
    match f.extension {
        Some(e) => e@,
        None => Seq::empty(),
    }
}

/// What is wrong with one file of a bundle, if anything: `role` names the
/// file, `wanted` the one extension it may have (compared ignoring ASCII
/// case).
pub open spec fn file_problem(role: Seq<char>, value: Seq<char>, f: PathFacts, wanted: Seq<char>) -> Option<Seq<char>> {
    let t = trim(value);
    if t.len() == 0 {
        Some(role + " path is not configured"@)
    } else if !f.absolute {
        Some(role + " path must be absolute"@)
    } else if !f.is_file {
        Some(role + " file does not exist: "@ + t)
    } else if ascii_lower(ext_text(f)) != wanted {
        Some(role + " has unsupported file type: "@ + t)
    } else {
        None
    }
}

pub open spec fn listed(o: Option<Seq<char>>) -> Seq<Seq<char>> {
    match o {
        Some(m) => seq![m],
        None => Seq::empty(),
    }
}

pub open spec fn strings_view(v: Seq<String>) -> Seq<Seq<char>> {
    v.map_values(|s: String| s@)
}

/// Everything wrong with a bundle, in the order it is checked.
pub open spec fn bundle_reasons(
    b: ImageModelBundleConfig,
    transformer: PathFacts,
    text_encoder: PathFacts,
    vae: PathFacts,
) -> Seq<Seq<char>> {
    listed(if trim(b.id@).len() == 0 { Some("Bundle id is empty"@) } else { None })
        + listed(
        if trim(b.architecture@) != "qwen_image"@ {
            Some("Unsupported image architecture: "@ + b.architecture@)
        } else {
            None
        },
    ) + listed(file_problem("transformer"@, b.transformer_path@, transformer, "gguf"@))
        + listed(file_problem("text encoder"@, b.text_encoder_path@, text_encoder, "gguf"@))
        + listed(file_problem("VAE"@, b.vae_path@, vae, "safetensors"@))
}

fn file_check(role: &str, value: &str, f: &PathFacts, wanted: &str) -> (r: Option<String>)
    ensures
        match file_problem(role@, value@, *f, wanted@) {
            Some(m) => r matches Some(e) && e@ == m,
            None => r is None,
        },
{
    let t = trim_str(value);
    let role_chars = chars_of(role);
    if t.len() == 0 {
        return Some(text3(&role_chars, " path is not configured", &[]));
    }
    if !f.absolute {
        return Some(text3(&role_chars, " path must be absolute", &[]));
    }
    if !f.is_file {
        return Some(text3(&role_chars, " file does not exist: ", &t));
    }
    let ext = match &f.extension {
        Some(e) => chars_of(e.as_str()),
        None => Vec::new(),
    };
    assert(ext@ == ext_text(*f));
    let lower = ascii_lower_chars(&ext);
    if !chars_equal(&lower, &chars_of(wanted)) {
        return Some(text3(&role_chars, " has unsupported file type: ", &t));
    }
    None
}

fn push_listed(v: &mut Vec<String>, o: Option<String>)
    ensures
        strings_view(final(v)@) == strings_view(old(v)@) + listed(
            match o {
                Some(s) => Some(s@),
                None => None,
            },
        ),
{
    let ghost before = strings_view(v@);
    match o {
        Some(s) => {
            v.push(s);
            assert(strings_view(v@) =~= before.push(v@.last()@));
        },
        None => {
            assert(strings_view(v@) =~= before + Seq::<Seq<char>>::empty());
        },
    }
}

/// A bundle's status: every problem found, ready exactly when there is none.
pub fn bundle_status(
    bundle: &ImageModelBundleConfig,
    transformer: &PathFacts,
    text_encoder: &PathFacts,
    vae: &PathFacts,
) -> (s: ImageBundleStatus)
    ensures
        s.id@ == bundle.id@,
        s.name@ == bundle.name@,
        s.architecture@ == bundle.architecture@,
        s.quantization@ == bundle.quantization@,
        strings_view(s.reasons@) == bundle_reasons(*bundle, *transformer, *text_encoder, *vae),
        s.ready == (bundle_reasons(*bundle, *transformer, *text_encoder, *vae).len() == 0),
{
    let mut reasons: Vec<String> = Vec::new();
    assert(strings_view(reasons@) =~= Seq::<Seq<char>>::empty());
    let id_problem = if trim_str(bundle.id.as_str()).len() == 0 {
        Some("Bundle id is empty".to_string())
    } else {
        None
    };
    push_listed(&mut reasons, id_problem);
    let arch = trim_str(bundle.architecture.as_str());
    let arch_problem = if !chars_equal(&arch, &chars_of("qwen_image")) {
        Some(text2("Unsupported image architecture: ", &chars_of(bundle.architecture.as_str())))
    } else {
        None
    };
    push_listed(&mut reasons, arch_problem);
    push_listed(&mut reasons, file_check("transformer", bundle.transformer_path.as_str(), transformer, "gguf"));
    push_listed(&mut reasons, file_check("text encoder", bundle.text_encoder_path.as_str(), text_encoder, "gguf"));
    push_listed(&mut reasons, file_check("VAE", bundle.vae_path.as_str(), vae, "safetensors"));
    let ready = reasons.len() == 0;
    ImageBundleStatus {
        id: bundle.id.clone(),
        name: bundle.name.clone(),
        architecture: bundle.architecture.clone(),
        quantization: bundle.quantization.clone(),
        ready,
        reasons,
    }
}

// ---------------------------------------------------------------------------
// The setup as a whole
// ---------------------------------------------------------------------------

/// The range checks on the two temperature limits: whether each is finite
/// and in range, and whether the cooldown limit is at or above the warning
/// limit.
#[derive(Clone, Copy, Debug)]
pub struct TemperatureChecks {
    pub warn_in_range: bool,
    pub cooldown_in_range: bool,
    pub cooldown_at_or_above_warn: bool,
}

/// The setup-wide settings that readiness depends on, with what the file
/// system says of the runner and of the output directory.
#[derive(Clone, Debug)]
pub struct ImageSetupFacts {
    pub enabled: bool,
    pub runner_path: String,
    pub runner: PathFacts,
    pub output_dir: String,
    pub output: PathFacts,
    pub temperatures: TemperatureChecks,
    pub default_bundle: String,
    pub default_profile: String,
}

/// Whether image generation can run, and every reason it cannot, with the
/// status of each bundle and profile.
#[derive(Clone, Debug)]
pub struct ImageCapabilityCheck {
    pub enabled: bool,
    pub ready: bool,
    pub reasons: Vec<String>,
    pub bundles: Vec<ImageBundleStatus>,
    pub profiles: Vec<ImageProfileStatus>,
}

pub open spec fn runner_problem(path: Seq<char>, f: PathFacts) -> Option<Seq<char>> {
    let t = trim(path);
    if t.len() == 0 {
        Some("Image runner path is not configured"@)
    } else if !f.absolute {
        Some("Image runner path must be absolute"@)
    } else if !f.is_file {
        Some("Image runner does not exist: "@ + t)
    } else {
        None
    }
}

/// An unset output directory is no problem: the default one is used.
pub open spec fn output_problem(dir: Seq<char>, f: PathFacts) -> Option<Seq<char>> {
    let t = trim(dir);
    if t.len() == 0 {
        None
    } else if !f.absolute {
        Some("Image output directory must be absolute"@)
    } else if f.exists && !f.is_dir {
        Some("Image output path is not a directory: "@ + t)
    } else {
        None
    }
}

pub open spec fn temperature_reasons(t: TemperatureChecks) -> Seq<Seq<char>> {
    listed(
        if !t.warn_in_range {
            Some("Image warning temperature must be between 40 and 100 C"@)
        } else {
            None
        },
    ) + listed(
        if !t.cooldown_in_range {
            Some("Image cooldown temperature must be between 20 and 90 C"@)
        } else if t.cooldown_at_or_above_warn {
            Some("Cooldown temperature must be below warning temperature"@)
        } else {
            None
        },
    )
}

/// One note for each id that already occurred earlier in the list, in
/// list order.
pub open spec fn duplicate_notes(ids: Seq<Seq<char>>, prefix: Seq<char>) -> Seq<Seq<char>>
    decreases ids.len(),
{
    if ids.len() == 0 {
        Seq::empty()
    } else {
        let rest = duplicate_notes(ids.drop_last(), prefix);
        if ids.drop_last().contains(ids.last()) {
            rest.push(prefix + ids.last())
        } else {
            rest
        }
    }
}

/// What readiness reads of a bundle or profile status: its id and whether
/// it is ready.
pub open spec fn bundle_summary(s: Seq<ImageBundleStatus>) -> Seq<(Seq<char>, bool)> {
    s.map_values(|b: ImageBundleStatus| (b.id@, b.ready))
}

pub open spec fn profile_summary(s: Seq<ImageProfileStatus>) -> Seq<(Seq<char>, bool)> {
    s.map_values(|p: ImageProfileStatus| (p.id@, p.ready))
}

pub open spec fn summary_ids(s: Seq<(Seq<char>, bool)>) -> Seq<Seq<char>> {
    s.map_values(|e: (Seq<char>, bool)| e.0)
}

/// Is there a ready entry with id `d`?
pub open spec fn default_ready(s: Seq<(Seq<char>, bool)>, d: Seq<char>) -> bool {
    exists|i: int| 0 <= i < s.len() && (#[trigger] s[i]).0 == d && s[i].1
}

/// Every reason image generation is not ready, in the order they are
/// checked.
pub open spec fn capability_reasons(
    setup: ImageSetupFacts,
    bundles: Seq<(Seq<char>, bool)>,
    profiles: Seq<(Seq<char>, bool)>,
) -> Seq<Seq<char>> {
    listed(if !setup.enabled { Some("Image generation is disabled in configuration"@) } else { None })
        + listed(runner_problem(setup.runner_path@, setup.runner))
        + listed(output_problem(setup.output_dir@, setup.output))
        + temperature_reasons(setup.temperatures)
        + duplicate_notes(summary_ids(bundles), "Duplicate image bundle id: "@)
        + duplicate_notes(summary_ids(profiles), "Duplicate image profile id: "@)
        + listed(
        if !default_ready(bundles, setup.default_bundle@) {
            Some("Default image bundle `"@ + setup.default_bundle@ + "` is missing or invalid"@)
        } else {
            None
        },
    ) + listed(
        if !default_ready(profiles, setup.default_profile@) {
            Some("Default image profile `"@ + setup.default_profile@ + "` is missing or invalid"@)
        } else {
            None
        },
    )
}

fn runner_check(path: &str, f: &PathFacts) -> (r: Option<String>)
    ensures
        match runner_problem(path@, *f) {
            Some(m) => r matches Some(e) && e@ == m,
            None => r is None,
        },
{
    let t = trim_str(path);
    if t.len() == 0 {
        Some("Image runner path is not configured".to_string())
    } else if !f.absolute {
        Some("Image runner path must be absolute".to_string())
    } else if !f.is_file {
        Some(text2("Image runner does not exist: ", &t))
    } else {
        None
    }
}

fn output_check(dir: &str, f: &PathFacts) -> (r: Option<String>)
    ensures
        match output_problem(dir@, *f) {
            Some(m) => r matches Some(e) && e@ == m,
            None => r is None,
        },
{
    let t = trim_str(dir);
    if t.len() == 0 {
        None
    } else if !f.absolute {
        Some("Image output directory must be absolute".to_string())
    } else if f.exists && !f.is_dir {
        Some(text2("Image output path is not a directory: ", &t))
    } else {
        None
    }
}

pub open spec fn chars_view(v: Seq<Vec<char>>) -> Seq<Seq<char>> {
    v.map_values(|c: Vec<char>| c@)
}

/// Append a note for each id that already occurred earlier.
fn push_duplicate_notes(ids: &Vec<Vec<char>>, prefix: &str, out: &mut Vec<String>)
    ensures
        strings_view(final(out)@) == strings_view(old(out)@) + duplicate_notes(chars_view(ids@), prefix@),
{
    let ghost base = strings_view(out@);
    let ghost all = chars_view(ids@);
    assert(all.take(0) =~= Seq::<Seq<char>>::empty());
    assert(strings_view(out@) =~= base + duplicate_notes(all.take(0), prefix@));
    let mut i: usize = 0;
    while i < ids.len()
        invariant
            i <= ids.len(),
            all == chars_view(ids@),
            strings_view(out@) == base + duplicate_notes(all.take(i as int), prefix@),
        decreases ids.len() - i,
    {
        let mut found = false;
        let mut j: usize = 0;
        while j < i
            invariant
                j <= i < ids.len(),
                all == chars_view(ids@),
                found == exists|k: int| 0 <= k < j && all[k] == all[i as int],
            decreases i - j,
        {
            assert(all[j as int] == ids@[j as int]@ && all[i as int] == ids@[i as int]@);
            if chars_equal(&ids[j], &ids[i]) {
                found = true;
            }
            j += 1;
            assert(found == exists|k: int| 0 <= k < j && all[k] == all[i as int]) by {
                if exists|k: int| 0 <= k < j && all[k] == all[i as int] {
                    let k = choose|k: int| 0 <= k < j && all[k] == all[i as int];
                    if k < j - 1 {
                        assert(exists|k2: int| 0 <= k2 < j - 1 && all[k2] == all[i as int]);
                    }
                }
            }
        }
        let ghost s = all.take(i + 1);
        assert(s.drop_last() =~= all.take(i as int));
        assert(s.last() == all[i as int]);
        assert(found == s.drop_last().contains(s.last())) by {
            if found {
                let k = choose|k: int| 0 <= k < i && all[k] == all[i as int];
                assert(s.drop_last()[k] == all[k]);
            }
            if s.drop_last().contains(s.last()) {
                let k = choose|k: int| 0 <= k < s.drop_last().len() && s.drop_last()[k] == s.last();
                assert(all[k] == all[i as int]);
            }
        }
        if found {
            let note = text2(prefix, &ids[i]);
            let ghost before = strings_view(out@);
            out.push(note);
            assert(strings_view(out@) =~= before.push(note@));
        }
        i += 1;
    }
    assert(all.take(ids.len() as int) =~= all);
}

fn bundle_id_chars(bundles: &Vec<ImageBundleStatus>) -> (r: Vec<Vec<char>>)
    ensures
        chars_view(r@) == summary_ids(bundle_summary(bundles@)),
{
    let mut r: Vec<Vec<char>> = Vec::new();
    let mut i: usize = 0;
    while i < bundles.len()
        invariant
            i <= bundles.len(),
            chars_view(r@) == summary_ids(bundle_summary(bundles@)).take(i as int),
        decreases bundles.len() - i,
    {
        let c = chars_of(bundles[i].id.as_str());
        let ghost before = chars_view(r@);
        r.push(c);
        assert(chars_view(r@) =~= before.push(c@));
        i += 1;
        assert(summary_ids(bundle_summary(bundles@)).take(i as int) =~= summary_ids(bundle_summary(bundles@)).take(i - 1).push(
            bundles@[i - 1].id@,
        ));
    }
    assert(summary_ids(bundle_summary(bundles@)).take(i as int) =~= summary_ids(bundle_summary(bundles@)));
    r
}

fn profile_id_chars(profiles: &Vec<ImageProfileStatus>) -> (r: Vec<Vec<char>>)
    ensures
        chars_view(r@) == summary_ids(profile_summary(profiles@)),
{
    let mut r: Vec<Vec<char>> = Vec::new();
    let mut i: usize = 0;
    while i < profiles.len()
        invariant
            i <= profiles.len(),
            chars_view(r@) == summary_ids(profile_summary(profiles@)).take(i as int),
        decreases profiles.len() - i,
    {
        let c = chars_of(profiles[i].id.as_str());
        let ghost before = chars_view(r@);
        r.push(c);
        assert(chars_view(r@) =~= before.push(c@));
        i += 1;
        assert(summary_ids(profile_summary(profiles@)).take(i as int) =~= summary_ids(profile_summary(profiles@)).take(i - 1).push(
            profiles@[i - 1].id@,
        ));
    }
    assert(summary_ids(profile_summary(profiles@)).take(i as int) =~= summary_ids(profile_summary(profiles@)));
    r
}

fn has_ready_bundle(bundles: &Vec<ImageBundleStatus>, id: &str) -> (b: bool)
    ensures
        b == default_ready(bundle_summary(bundles@), id@),
{
    let want = chars_of(id);
    let mut i: usize = 0;
    while i < bundles.len()
        invariant
            i <= bundles.len(),
            want@ == id@,
            forall|k: int| 0 <= k < i ==> !((#[trigger] bundles@[k]).id@ == id@ && bundles@[k].ready),
        decreases bundles.len() - i,
    {
        if bundles[i].ready && chars_equal(&chars_of(bundles[i].id.as_str()), &want) {
            assert(bundle_summary(bundles@)[i as int] == (bundles@[i as int].id@, bundles@[i as int].ready));
            return true;
        }
        i += 1;
    }
    assert forall|k: int| 0 <= k < bundle_summary(bundles@).len() implies !(#[trigger] bundle_summary(bundles@)[k].0 == id@
        && bundle_summary(bundles@)[k].1) by {
        assert(bundle_summary(bundles@)[k] == (bundles@[k].id@, bundles@[k].ready));
    }
    false
}

fn has_ready_profile(profiles: &Vec<ImageProfileStatus>, id: &str) -> (b: bool)
    ensures
        b == default_ready(profile_summary(profiles@), id@),
{
    let want = chars_of(id);
    let mut i: usize = 0;
    while i < profiles.len()
        invariant
            i <= profiles.len(),
            want@ == id@,
            forall|k: int| 0 <= k < i ==> !((#[trigger] profiles@[k]).id@ == id@ && profiles@[k].ready),
        decreases profiles.len() - i,
    {
        if profiles[i].ready && chars_equal(&chars_of(profiles[i].id.as_str()), &want) {
            assert(profile_summary(profiles@)[i as int] == (profiles@[i as int].id@, profiles@[i as int].ready));
            return true;
        }
        i += 1;
    }
    assert forall|k: int| 0 <= k < profile_summary(profiles@).len() implies !(#[trigger] profile_summary(profiles@)[k].0 == id@
        && profile_summary(profiles@)[k].1) by {
        assert(profile_summary(profiles@)[k] == (profiles@[k].id@, profiles@[k].ready));
    }
    false
}

fn default_note(a: &str, id: &str, c: &str) -> (r: String)
    ensures
        r@ == a@ + id@ + c@,
{
    text3(&chars_of(a), id, &chars_of(c))
}

/// Readiness of image generation: every reason it cannot run, in the
/// order checked; ready exactly when it is enabled and there is none.
pub fn capability_status(
    setup: &ImageSetupFacts,
    bundles: Vec<ImageBundleStatus>,
    profiles: Vec<ImageProfileStatus>,
) -> (c: ImageCapabilityCheck)
    ensures
        c.enabled == setup.enabled,
        strings_view(c.reasons@) == capability_reasons(*setup, bundle_summary(bundles@), profile_summary(profiles@)),
        c.ready == (setup.enabled && capability_reasons(*setup, bundle_summary(bundles@), profile_summary(profiles@)).len() == 0),
        c.bundles@ == bundles@,
        c.profiles@ == profiles@,
{
    let mut reasons: Vec<String> = Vec::new();
    assert(strings_view(reasons@) =~= Seq::<Seq<char>>::empty());
    let disabled = if !setup.enabled {
        Some("Image generation is disabled in configuration".to_string())
    } else {
        None
    };
    push_listed(&mut reasons, disabled);
    push_listed(&mut reasons, runner_check(setup.runner_path.as_str(), &setup.runner));
    push_listed(&mut reasons, output_check(setup.output_dir.as_str(), &setup.output));
    let t = setup.temperatures;
    let warn = if !t.warn_in_range {
        Some("Image warning temperature must be between 40 and 100 C".to_string())
    } else {
        None
    };
    push_listed(&mut reasons, warn);
    let cool = if !t.cooldown_in_range {
        Some("Image cooldown temperature must be between 20 and 90 C".to_string())
    } else if t.cooldown_at_or_above_warn {
        Some("Cooldown temperature must be below warning temperature".to_string())
    } else {
        None
    };
    push_listed(&mut reasons, cool);
    let ghost after_temps = strings_view(reasons@);
    push_duplicate_notes(&bundle_id_chars(&bundles), "Duplicate image bundle id: ", &mut reasons);
    push_duplicate_notes(&profile_id_chars(&profiles), "Duplicate image profile id: ", &mut reasons);
    let missing_bundle = if !has_ready_bundle(&bundles, setup.default_bundle.as_str()) {
        Some(default_note("Default image bundle `", setup.default_bundle.as_str(), "` is missing or invalid"))
    } else {
        None
    };
    push_listed(&mut reasons, missing_bundle);
    let missing_profile = if !has_ready_profile(&profiles, setup.default_profile.as_str()) {
        Some(default_note("Default image profile `", setup.default_profile.as_str(), "` is missing or invalid"))
    } else {
        None
    };
    push_listed(&mut reasons, missing_profile);
    assert(strings_view(reasons@) =~= capability_reasons(*setup, bundle_summary(bundles@), profile_summary(profiles@)));
    let ready = setup.enabled && reasons.len() == 0;
    ImageCapabilityCheck { enabled: setup.enabled, ready, reasons, bundles, profiles }
}

} // verus!

//! Local image generation: size presets, where images go, and reading the
//! native runner's step progress from its console output.

use vstd::prelude::*;
use crate::text::{chars_of, joined, verbatim_prefixed, digits_value, ends_with, is_ascii_digit, is_ascii_digit_exec, is_white_space, is_white_space_exec, path_join, slice_chars, string_of, trim, trim_str, utf8_len};

verus! {

broadcast use vstd::string::group_string_axioms;

// ---------------------------------------------------------------------------
// Size presets
// ---------------------------------------------------------------------------

/// A named image size offered to the user.
#[derive(Clone, Debug)]
pub struct ImageSizePreset {
    pub id: String,
    pub name: String,
    pub aspect_ratio: String,
    pub width: u32,
    pub height: u32,
    pub tier: String,
    pub note: String,
}

pub ghost struct PresetModel {
    pub id: Seq<char>,
    pub name: Seq<char>,
    pub aspect_ratio: Seq<char>,
    pub width: u32,
    pub height: u32,
    pub tier: Seq<char>,
    pub note: Seq<char>,
}

impl View for ImageSizePreset {
    type V = PresetModel;

    open spec fn view(&self) -> PresetModel {
        PresetModel {
            id: self.id@,
            name: self.name@,
            aspect_ratio: self.aspect_ratio@,
            width: self.width,
            height: self.height,
            tier: self.tier@,
            note: self.note@,
        }
    }
}

pub open spec fn preset(id: &str, name: &str, ratio: &str, w: u32, h: u32, tier: &str, note: &str) -> PresetModel {
    PresetModel { id: id@, name: name@, aspect_ratio: ratio@, width: w, height: h, tier: tier@, note: note@ }
}

/// The offered sizes, the recommended square first.
pub open spec fn size_presets() -> Seq<PresetModel> {
    seq![
        preset("recommended_square", "Recommended square", "1:1", 1024, 1024, "recommended",
            "Measured Q6 default: best balance of quality, heat, and generation time."),
        preset("official_square", "Maximum square", "1:1", 1328, 1328, "max",
            "Official Qwen square size; slower and thermally demanding on RTX 3090."),
        preset("widescreen", "Widescreen", "16:9", 1664, 928, "official", "Official Qwen landscape preset."),
        preset("portrait", "Tall portrait", "9:16", 928, 1664, "official", "Official Qwen portrait preset."),
        preset("landscape_4_3", "Landscape", "4:3", 1472, 1104, "official", "Official Qwen landscape preset."),
        preset("portrait_3_4", "Portrait", "3:4", 1104, 1472, "official", "Official Qwen portrait preset."),
        preset("photo_3_2", "Photo landscape", "3:2", 1584, 1056, "official",
            "Official Qwen photographic landscape preset."),
        preset("photo_2_3", "Photo portrait", "2:3", 1056, 1584, "official",
            "Official Qwen photographic portrait preset."),
    ]
}

fn make_preset(id: &str, name: &str, ratio: &str, w: u32, h: u32, tier: &str, note: &str) -> (p: ImageSizePreset)
    ensures
        p@ == preset(id, name, ratio, w, h, tier, note),
{
    ImageSizePreset {
        id: id.to_string(),
        name: name.to_string(),
        aspect_ratio: ratio.to_string(),
        width: w,
        height: h,
        tier: tier.to_string(),
        note: note.to_string(),
    }
}

/// The image sizes offered, the recommended 1024 square first.
pub fn image_size_presets() -> (v: Vec<ImageSizePreset>)
    ensures
        v@.map_values(|p: ImageSizePreset| p@) == size_presets(),
{
    let v = vec![
        make_preset("recommended_square", "Recommended square", "1:1", 1024, 1024, "recommended",
            "Measured Q6 default: best balance of quality, heat, and generation time."),
        make_preset("official_square", "Maximum square", "1:1", 1328, 1328, "max",
            "Official Qwen square size; slower and thermally demanding on RTX 3090."),
        make_preset("widescreen", "Widescreen", "16:9", 1664, 928, "official", "Official Qwen landscape preset."),
        make_preset("portrait", "Tall portrait", "9:16", 928, 1664, "official", "Official Qwen portrait preset."),
        make_preset("landscape_4_3", "Landscape", "4:3", 1472, 1104, "official", "Official Qwen landscape preset."),
        make_preset("portrait_3_4", "Portrait", "3:4", 1104, 1472, "official", "Official Qwen portrait preset."),
        make_preset("photo_3_2", "Photo landscape", "3:2", 1584, 1056, "official",
            "Official Qwen photographic landscape preset."),
        make_preset("photo_2_3", "Photo portrait", "2:3", 1056, 1584, "official",
            "Official Qwen photographic portrait preset."),
    ];
    assert(v@.map_values(|p: ImageSizePreset| p@) =~= size_presets());
    v
}

/// Every preset is a multiple of 16 in both directions and within the
/// runner's 64 to 2048 pixel limits.
pub proof fn lemma_presets_within_limits()
    ensures
        forall|i: int| 0 <= i < size_presets().len() ==> {
            let p = #[trigger] size_presets()[i];
            &&& 64 <= p.width <= 2048
            &&& 64 <= p.height <= 2048
            &&& p.width % 16 == 0
            &&& p.height % 16 == 0
        },
{
}

// ---------------------------------------------------------------------------
// Output locations
// ---------------------------------------------------------------------------

/// Image runner and model files found on this machine.
#[derive(Clone, Debug)]
pub struct DetectedImageLabSetup {
    pub runner_path: String,
    pub transformer_path: String,
    pub text_encoder_path: String,
    pub vae_path: String,
    pub output_dir: String,
}

/// The runner's log tail keeps the last 128 KiB.
pub open spec fn log_tail_limit() -> nat {
    128 * 1024
}

/// The log after appending a chunk: everything, cut to its last 128 KiB.
pub open spec fn log_after(log: Seq<u8>, chunk: Seq<u8>) -> Seq<u8> {
    let all = log + chunk;
    if all.len() > log_tail_limit() {
        all.skip(all.len() - log_tail_limit())
    } else {
        all
    }
}

/// Append runner output to the kept log tail.
pub fn append_log_tail(log: &mut Vec<u8>, chunk: &[u8])
    requires
        old(log)@.len() + chunk@.len() <= usize::MAX,
    ensures
        final(log)@ == log_after(old(log)@, chunk@),
{
    let mut i: usize = 0;
    let ghost l0 = log@;
    while i < chunk.len()
        invariant
            i <= chunk.len(),
            log@ == l0 + chunk@.take(i as int),
        decreases chunk.len() - i,
    {
        log.push(chunk[i]);
        i += 1;
        assert(log@ =~= l0 + chunk@.take(i as int));
    }
    assert(chunk@.take(i as int) =~= chunk@);
    let limit: usize = 128 * 1024;
    if log.len() > limit {
        let excess = log.len() - limit;
        let mut kept: Vec<u8> = Vec::new();
        let mut k: usize = excess;
        let ghost all = log@;
        while k < log.len()
            invariant
                excess <= k <= log.len(),
                all == log@,
                kept@ == all.subrange(excess as int, k as int),
            decreases log.len() - k,
        {
            kept.push(log[k]);
            k += 1;
            assert(kept@ =~= all.subrange(excess as int, k as int));
        }
        assert(kept@ =~= all.skip(excess as int));
        *log = kept;
    }
}

/// The output directory: the configured one, trimmed, unless it is blank;
/// otherwise an `images` folder in the application's support directory.
pub fn configured_output_dir(output_dir: &str, support_dir: &str) -> (r: String)
    ensures
        trim(output_dir@).len() > 0 ==> r@ == trim(output_dir@),
        trim(output_dir@).len() == 0 ==> ends_with(r@, "images"@),
        trim(output_dir@).len() == 0 && !verbatim_prefixed(support_dir@) ==> joined(r@, support_dir@, "images"@),
{
    let t = trim_str(output_dir);
    if t.len() > 0 {
        string_of(&t)
    } else {
        proof {
            reveal_strlit("images");
        }
        path_join(support_dir, "images")
    }
}

/// Where a preview run writes its image: `image-preview.png` in the output
/// directory.
pub fn preview_output_path(output_dir: &str, support_dir: &str) -> (r: String)
    ensures
        ends_with(r@, "image-preview.png"@),
        trim(output_dir@).len() > 0 && !verbatim_prefixed(trim(output_dir@)) ==> joined(
            r@,
            trim(output_dir@),
            "image-preview.png"@,
        ),
{
    let dir = configured_output_dir(output_dir, support_dir);
    proof {
        reveal_strlit("image-preview.png");
    }
    path_join(dir.as_str(), "image-preview.png")
}

// ---------------------------------------------------------------------------
// Step progress of the native runner
// ---------------------------------------------------------------------------

/// A step-progress report of the runner: `current/total - seconds s/it`.
/// The seconds per step are kept as the text the runner printed.
#[derive(Clone, Debug, PartialEq, Eq)]
pub struct ParsedImageProgress {
    pub current_step: u32,
    pub total_steps: u32,
    pub seconds_per_step: String,
}

/// Length of the run of ASCII digits at `s[i..]`.
pub open spec fn digit_run(s: Seq<char>, i: int) -> nat
    decreases s.len() - i,
{
    if 0 <= i < s.len() && is_ascii_digit(s[i]) {
        1 + digit_run(s, i + 1)
    } else {
        0
    }
}

/// Length of the run of white space at `s[i..]`.
pub open spec fn space_run(s: Seq<char>, i: int) -> nat
    decreases s.len() - i,
{
    if 0 <= i < s.len() && is_white_space(s[i]) {
        1 + space_run(s, i + 1)
    } else {
        0
    }
}

/// A step report starting at `i`: the end index, the step, the total and
/// the seconds text. It reads one to four digits, `/`, one to four digits,
/// white space, `-`, white space, digits with an optional fraction, then
/// `s/it`.
pub open spec fn step_at(s: Seq<char>, i: int) -> Option<(int, Seq<char>, Seq<char>, Seq<char>)> {
    let a = digit_run(s, i);
    let j = i + a;
    if !(1 <= a <= 4) || !(j < s.len() && s[j] == '/') {
        None
    } else {
        let b = digit_run(s, j + 1);
        let k = j + 1 + b;
        if !(1 <= b <= 4) {
            None
        } else {
            let k2 = k + space_run(s, k);
            if !(k2 < s.len() && s[k2] == '-') {
                None
            } else {
                let m = k2 + 1 + space_run(s, k2 + 1);
                let c = digit_run(s, m);
                if c == 0 {
                    None
                } else {
                    let n0 = m + c;
                    let n = if n0 + 1 < s.len() && s[n0] == '.' && digit_run(s, n0 + 1) > 0 {
                        n0 + 1 + digit_run(s, n0 + 1)
                    } else {
                        n0
                    };
                    if n + 4 <= s.len() && s.subrange(n, n + 4) == "s/it"@ {
                        Some((n + 4, s.subrange(i, j), s.subrange(j + 1, k), s.subrange(m, n)))
                    } else {
                        None
                    }
                }
            }
        }
    }
}

/// The last report found scanning from `i`, reports not overlapping: after
/// one is found the scan goes on past its end.
pub open spec fn last_step_from(s: Seq<char>, i: int) -> Option<(Seq<char>, Seq<char>, Seq<char>)>
    decreases s.len() - i,
{
    if i < 0 || i >= s.len() {
        None
    } else {
        match step_at(s, i) {
            Some((end, a, b, c)) => if end > i {
                match last_step_from(s, end) {
                    Some(later) => Some(later),
                    None => Some((a, b, c)),
                }
            } else {
                None
            },
            None => last_step_from(s, i + 1),
        }
    }
}

proof fn lemma_digit_run(s: Seq<char>, i: int)
    requires
        0 <= i,
    ensures
        i + digit_run(s, i) <= s.len() || digit_run(s, i) == 0,
        forall|k: int| i <= k < i + digit_run(s, i) ==> is_ascii_digit(#[trigger] s[k]),
        i + digit_run(s, i) < s.len() ==> !is_ascii_digit(s[i + digit_run(s, i)]),
    decreases s.len() - i,
{
    if 0 <= i < s.len() && is_ascii_digit(s[i]) {
        lemma_digit_run(s, i + 1);
    }
}

proof fn lemma_space_run(s: Seq<char>, i: int)
    requires
        0 <= i,
    ensures
        i + space_run(s, i) <= s.len() || space_run(s, i) == 0,
    decreases s.len() - i,
{
    if 0 <= i < s.len() && is_white_space(s[i]) {
        lemma_space_run(s, i + 1);
    }
}

fn digit_run_exec(s: &[char], i: usize) -> (n: usize)
    requires
        i <= s.len(),
    ensures
        n == digit_run(s@, i as int),
        i + n <= s.len(),
{
    let mut k: usize = i;
    while k < s.len() && is_ascii_digit_exec(s[k])
        invariant
            i <= k <= s.len(),
            digit_run(s@, i as int) == (k - i) + digit_run(s@, k as int),
        decreases s.len() - k,
    {
        k += 1;
    }
    k - i
}

fn space_run_exec(s: &[char], i: usize) -> (n: usize)
    requires
        i <= s.len(),
    ensures
        n == space_run(s@, i as int),
        i + n <= s.len(),
{
    let mut k: usize = i;
    while k < s.len() && is_white_space_exec(s[k])
        invariant
            i <= k <= s.len(),
            space_run(s@, i as int) == (k - i) + space_run(s@, k as int),
        decreases s.len() - k,
    {
        k += 1;
    }
    k - i
}

fn step_at_exec(s: &[char], i: usize) -> (r: Option<(usize, Vec<char>, Vec<char>, Vec<char>)>)
    requires
        i <= s.len(),
    ensures
        match r {
            Some((end, a, b, c)) => step_at(s@, i as int) == Some((end as int, a@, b@, c@)) && end <= s.len(),
            None => step_at(s@, i as int) is None,
        },
{
    let a = digit_run_exec(s, i);
    let j = i + a;
    if !(1 <= a && a <= 4) || !(j < s.len() && s[j] == '/') {
        return None;
    }
    let b = digit_run_exec(s, j + 1);
    let k = j + 1 + b;
    if !(1 <= b && b <= 4) {
        return None;
    }
    let k2 = k + space_run_exec(s, k);
    if !(k2 < s.len() && s[k2] == '-') {
        return None;
    }
    let m = k2 + 1 + space_run_exec(s, k2 + 1);
    let c = digit_run_exec(s, m);
    if c == 0 {
        return None;
    }
    let n0 = m + c;
    let n = if n0 < s.len() && n0 + 1 < s.len() && s[n0] == '.' && digit_run_exec(s, n0 + 1) > 0 {
        n0 + 1 + digit_run_exec(s, n0 + 1)
    } else {
        n0
    };
    if s.len() - n >= 4 {
        let tail = slice_chars(s, n, n + 4);
        if crate::text::chars_equal(&tail, &chars_of("s/it")) {
            return Some((n + 4, slice_chars(s, i, j), slice_chars(s, j + 1, k), slice_chars(s, m, n)));
        }
    }
    None
}

fn last_step_exec(s: &[char]) -> (r: Option<(Vec<char>, Vec<char>, Vec<char>)>)
    ensures
        match r {
            Some((a, b, c)) => last_step_from(s@, 0) == Some((a@, b@, c@)),
            None => last_step_from(s@, 0) is None,
        },
{
    let mut best: Option<(Vec<char>, Vec<char>, Vec<char>)> = None;
    let mut i: usize = 0;
    while i < s.len()
        invariant
            i <= s.len(),
            last_step_from(s@, 0) == match last_step_from(s@, i as int) {
                Some(later) => Some(later),
                None => match best {
                    Some((a, b, c)) => Some((a@, b@, c@)),
                    None => None,
                },
            },
        decreases s.len() - i,
    {
        match step_at_exec(s, i) {
            Some((end, a, b, c)) => {
                assert(end > i);
                best = Some((a, b, c));
                i = end;
            },
            None => {
                i += 1;
            },
        }
    }
    best
}

pub open spec fn pow10(n: nat) -> nat
    decreases n,
{
    if n == 0 {
        1
    } else {
        10 * pow10((n - 1) as nat)
    }
}

proof fn lemma_digits_bound(s: Seq<char>)
    requires
        forall|k: int| 0 <= k < s.len() ==> is_ascii_digit(#[trigger] s[k]),
    ensures
        digits_value(s) < pow10(s.len()),
    decreases s.len(),
{
    if s.len() > 0 {
        let p = s.drop_last();
        assert forall|k: int| 0 <= k < p.len() implies is_ascii_digit(#[trigger] p[k]) by {
            assert(p[k] == s[k]);
        }
        lemma_digits_bound(p);
        let d = ((s.last() as u32) - ('0' as u32)) as nat;
        assert(is_ascii_digit(s[s.len() - 1]));
        assert(d < 10);
        let a = digits_value(p);
        let q = pow10(p.len());
        assert(a * 10 + d < 10 * q) by (nonlinear_arith)
            requires
                a < q,
                d < 10,
        ;
    }
}

/// Value of one to four ASCII digits.
fn small_number(v: &[char]) -> (n: u32)
    requires
        1 <= v.len() <= 4,
        forall|k: int| 0 <= k < v.len() ==> is_ascii_digit(#[trigger] v@[k]),
    ensures
        n == digits_value(v@),
{
    let mut acc: u32 = 0;
    let mut i: usize = 0;
    while i < v.len()
        invariant
            i <= v.len() <= 4,
            forall|k: int| 0 <= k < v.len() ==> is_ascii_digit(#[trigger] v@[k]),
            acc == digits_value(v@.take(i as int)),
        decreases v.len() - i,
    {
        let ghost t = v@.take(i + 1);
        assert(t.drop_last() =~= v@.take(i as int));
        assert(t.last() == v@[i as int]);
        assert forall|k: int| 0 <= k < t.len() implies is_ascii_digit(#[trigger] t[k]) by {
            assert(t[k] == v@[k]);
        }
        proof {
            lemma_digits_bound(t);
            assert(pow10(t.len()) <= 10000) by {
                reveal_with_fuel(pow10, 5);
            }
        }
        let d = (v[i] as u32) - ('0' as u32);
        acc = acc * 10 + d;
        i += 1;
    }
    assert(v@.take(i as int) =~= v@);
    acc
}

/// Keeps the recent console output of the runner and reports each new step.
#[derive(Clone, Debug)]
pub struct NativeProgressParser {
    tail: Vec<char>,
    last_step: Option<(u32, u32)>,
}

pub ghost struct ProgressParserModel {
    pub tail: Seq<char>,
    pub last_step: Option<(u32, u32)>,
}

impl View for NativeProgressParser {
    type V = ProgressParserModel;

    closed spec fn view(&self) -> ProgressParserModel {
        ProgressParserModel { tail: self.tail@, last_step: self.last_step }
    }
}

/// The kept output after appending a chunk: past 4096 bytes only the last
/// 2048 characters are kept.
pub open spec fn kept_tail(tail: Seq<char>, chunk: Seq<char>) -> Seq<char> {
    let all = tail + chunk;
    if utf8_len(all) > 4096 && all.len() > 2048 {
        all.skip(all.len() - 2048)
    } else {
        all
    }
}

impl NativeProgressParser {
    /// A parser that has seen nothing yet.
    pub fn new() -> (p: Self)
        ensures
            p@.tail.len() == 0,
            p@.last_step is None,
    {
        NativeProgressParser { tail: Vec::new(), last_step: None }
    }

    /// Take a chunk of runner output; return the latest step report if it
    /// is a new, sensible one (step not past the total, not the same as the
    /// last reported step).
    pub fn push(&mut self, chunk: &str) -> (r: Option<ParsedImageProgress>)
        requires
            utf8_len(old(self)@.tail + chunk@) <= usize::MAX,
        ensures
            final(self)@.tail == kept_tail(old(self)@.tail, chunk@),
            ({
                let t = kept_tail(old(self)@.tail, chunk@);
                match last_step_from(t, 0) {
                    None => r is None && final(self)@.last_step == old(self)@.last_step,
                    Some((a, b, c)) => {
                        let cur = digits_value(a);
                        let tot = digits_value(b);
                        if cur > tot || old(self)@.last_step == Some((cur as u32, tot as u32)) {
                            r is None && final(self)@.last_step == old(self)@.last_step
                        } else {
                            &&& r matches Some(p) && p.current_step == cur && p.total_steps == tot
                                && p.seconds_per_step@ == c
                            &&& final(self)@.last_step == Some((cur as u32, tot as u32))
                        }
                    },
                }
            }),
    {
        let extra = chars_of(chunk);
        let ghost t0 = self.tail@;
        let mut i: usize = 0;
        while i < extra.len()
            invariant
                i <= extra.len(),
                self.tail@ == t0 + extra@.take(i as int),
                self.last_step == old(self).last_step,
                t0 == old(self).tail@,
            decreases extra.len() - i,
        {
            self.tail.push(extra[i]);
            i += 1;
            assert(self.tail@ =~= t0 + extra@.take(i as int));
        }
        assert(extra@.take(i as int) =~= extra@);
        let bytes = crate::text::utf8_len_exec(&self.tail);
        if bytes > 4096 && self.tail.len() > 2048 {
            let len = self.tail.len();
            self.tail = slice_chars(&self.tail, len - 2048, len);
        }
        let (a, b, c) = match last_step_exec(&self.tail) {
            None => {
                return None;
            },
            Some(found) => found,
        };
        proof {
            lemma_found_shape(self.tail@, 0);
        }
        let cur = small_number(&a);
        let tot = small_number(&b);
        if cur > tot {
            return None;
        }
        match self.last_step {
            Some((lc, lt)) => {
                if lc == cur && lt == tot {
                    return None;
                }
            },
            None => {},
        }
        self.last_step = Some((cur, tot));
        Some(ParsedImageProgress { current_step: cur, total_steps: tot, seconds_per_step: string_of(&c) })
    }
}

proof fn lemma_step_shape(s: Seq<char>, i: int)
    requires
        0 <= i,
    ensures
        step_at(s, i) matches Some((end, a, b, c)) ==> {
            &&& end > i
            &&& 1 <= a.len() <= 4
            &&& 1 <= b.len() <= 4
            &&& forall|k: int| 0 <= k < a.len() ==> is_ascii_digit(#[trigger] a[k])
            &&& forall|k: int| 0 <= k < b.len() ==> is_ascii_digit(#[trigger] b[k])
        },
{
    lemma_digit_run(s, i);
    let j = i + digit_run(s, i);
    lemma_digit_run(s, j + 1);
    if let Some((end, a, b, c)) = step_at(s, i) {
        assert forall|k: int| 0 <= k < a.len() implies is_ascii_digit(#[trigger] a[k]) by {
            assert(a[k] == s[i + k]);
        }
        assert forall|k: int| 0 <= k < b.len() implies is_ascii_digit(#[trigger] b[k]) by {
            assert(b[k] == s[j + 1 + k]);
        }
    }
}

proof fn lemma_found_shape(s: Seq<char>, i: int)
    requires
        0 <= i,
    ensures
        last_step_from(s, i) matches Some((a, b, c)) ==> {
            &&& 1 <= a.len() <= 4
            &&& 1 <= b.len() <= 4
            &&& forall|k: int| 0 <= k < a.len() ==> is_ascii_digit(#[trigger] a[k])
            &&& forall|k: int| 0 <= k < b.len() ==> is_ascii_digit(#[trigger] b[k])
        },
    decreases s.len() - i,
{
    if 0 <= i < s.len() {
        lemma_step_shape(s, i);
        match step_at(s, i) {
            Some((end, a, b, c)) => {
                if end > i {
                    lemma_found_shape(s, end);
                }
            },
            None => {
                lemma_found_shape(s, i + 1);
            },
        }
    }
}

} // verus!

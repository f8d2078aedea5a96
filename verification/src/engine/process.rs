//! llama-server process rules: states, launch-flag support, and finding a
//! vision projector next to a model.

use vstd::prelude::*;
use crate::text::{
    to_lowercase, unicode_lowercase, ascii_lower, ascii_lower_chars, chars_equal, chars_of, contains_chars,
    contains_seq, find_chars_from, find_from, index_of_char, index_of_char_exec, is_ascii_digit,
    lemma_find_from, lemma_index_of_char, slice_chars, string_of, trim, trim_char, trim_char_chars,
    trim_chars, trim_str,
};

verus! {

broadcast use vstd::string::group_string_axioms;

/// Lifecycle of the managed llama-server process.
#[derive(Clone, Copy, Debug, PartialEq, Eq, Structural)]
pub enum ProcessState {
    Idle,
    Starting,
    Running,
    Stopping,
    Error,
}

pub open spec fn strings_view(v: Seq<String>) -> Seq<Seq<char>> {
    v.map_values(|s: String| s@)
}

pub open spec fn strs_view(v: Seq<&str>) -> Seq<Seq<char>> {
    v.map_values(|s: &str| s@)
}

// ---------------------------------------------------------------------------
// Launch-flag support
// ---------------------------------------------------------------------------

/// The flags whose support is checked in a llama-server's `--help` output.
pub open spec fn detection_targets() -> Seq<Seq<char>> {
    seq![
        "--jinja"@, "--reasoning"@, "--reasoning-preserve"@, "--chat-template"@,
        "--chat-template-file"@, "--chat-template-kwargs"@, "--parallel"@, "--slots"@,
        "--ctx-size"@, "--mmproj"@, "--fit"@, "--cache-ram"@, "-ctxcp"@, "--flash-attn"@,
        "--cont-batching"@, "--cache-type-k"@, "--cache-type-v"@, "--kv-unified"@,
        "--no-warmup"@, "--ctx-shift"@, "--tensor-split"@, "-md"@, "--spec-type"@,
        "--spec-draft-n-max"@, "--draft-max"@, "--draft-min"@, "--draft-p-min"@,
    ]
}

/// The flags whose support is checked in a llama-server's `--help` output.
pub fn llama_flag_detection_targets() -> (v: Vec<&'static str>)
    ensures
        strs_view(v@) == detection_targets(),
{
    let v = vec![
        "--jinja", "--reasoning", "--reasoning-preserve", "--chat-template",
        "--chat-template-file", "--chat-template-kwargs", "--parallel", "--slots",
        "--ctx-size", "--mmproj", "--fit", "--cache-ram", "-ctxcp", "--flash-attn",
        "--cont-batching", "--cache-type-k", "--cache-type-v", "--kv-unified",
        "--no-warmup", "--ctx-shift", "--tensor-split", "-md", "--spec-type",
        "--spec-draft-n-max", "--draft-max", "--draft-min", "--draft-p-min",
    ];
    assert(strs_view(v@) =~= detection_targets());
    v
}

/// What is known of a llama-server binary's flag support.
#[derive(Clone, Debug)]
pub struct LlamaFlagSupport {
    pub checked: bool,
    pub binary_path: Option<String>,
    pub supported_flags: Vec<String>,
    pub missing_critical_flags: Vec<String>,
    pub error: Option<String>,
}

/// The flags of `flags` that `help` mentions, and those it does not, each in
/// the order of `flags`.
pub open spec fn partition_flags(help: Seq<char>, flags: Seq<Seq<char>>) -> (Seq<Seq<char>>, Seq<Seq<char>>)
    decreases flags.len(),
{
    if flags.len() == 0 {
        (seq![], seq![])
    } else {
        let (s, m) = partition_flags(help, flags.drop_last());
        if contains_seq(help, flags.last()) {
            (s.push(flags.last()), m)
        } else {
            (s, m.push(flags.last()))
        }
    }
}

/// Split `flags` into those the help text mentions and those it lacks.
pub fn llama_flags_from_help_text(help_text: &str, flags: &[&str]) -> (r: (Vec<String>, Vec<String>))
    ensures
        (strings_view(r.0@), strings_view(r.1@)) == partition_flags(help_text@, strs_view(flags@)),
{
    let help = chars_of(help_text);
    let ghost fv = strs_view(flags@);
    let mut supported: Vec<String> = Vec::new();
    let mut missing: Vec<String> = Vec::new();
    let mut i: usize = 0;
    assert(fv.take(0) =~= Seq::<Seq<char>>::empty());
    assert(strings_view(supported@) =~= Seq::<Seq<char>>::empty());
    assert(strings_view(missing@) =~= Seq::<Seq<char>>::empty());
    while i < flags.len()
        invariant
            i <= flags.len(),
            help@ == help_text@,
            fv == strs_view(flags@),
            (strings_view(supported@), strings_view(missing@)) == partition_flags(help_text@, fv.take(i as int)),
        decreases flags.len() - i,
    {
        assert(fv.take(i + 1).drop_last() =~= fv.take(i as int));
        assert(fv.take(i + 1).last() == flags@[i as int]@);
        let ghost s0 = strings_view(supported@);
        let ghost m0 = strings_view(missing@);
        if contains_chars(&help, &chars_of(flags[i])) {
            supported.push(flags[i].to_string());
            assert(strings_view(supported@) =~= s0.push(flags@[i as int]@));
        } else {
            missing.push(flags[i].to_string());
            assert(strings_view(missing@) =~= m0.push(flags@[i as int]@));
        }
        i += 1;
    }
    assert(fv.take(i as int) =~= fv);
    (supported, missing)
}

pub open spec fn opt_view(o: Option<String>) -> Option<Seq<char>> {
    match o {
        Some(s) => Some(s@),
        None => None,
    }
}

/// Flag support of a binary, given its path (if one was found), the text of
/// its `--help` (if it could be run), and the last error met running it.
pub open spec fn flag_support_matches(
    r: LlamaFlagSupport,
    binary_path: Option<Seq<char>>,
    help_text: Option<Seq<char>>,
    last_error: Option<Seq<char>>,
) -> bool {
    match binary_path {
        None => {
            &&& !r.checked
            &&& r.binary_path is None
            &&& r.supported_flags@.len() == 0
            &&& strings_view(r.missing_critical_flags@) == detection_targets()
            &&& opt_view(r.error) == Some("llama-server binary not found"@)
        },
        Some(p) => match help_text {
            Some(text) => {
                &&& r.checked
                &&& opt_view(r.binary_path) == Some(p)
                &&& (strings_view(r.supported_flags@), strings_view(r.missing_critical_flags@))
                    == partition_flags(text, detection_targets())
                &&& r.error is None
            },
            None => {
                &&& !r.checked
                &&& opt_view(r.binary_path) == Some(p)
                &&& r.supported_flags@.len() == 0
                &&& r.missing_critical_flags@.len() == 0
                &&& opt_view(r.error) == Some(
                    "Unable to inspect llama-server flags"@ + match last_error {
                        Some(e) => ": "@ + e,
                        None => Seq::<char>::empty(),
                    },
                )
            },
        },
    }
}

fn concat_str(a: &str, b: &str) -> (r: String)
    ensures
        r@ == a@ + b@,
{
    let mut v = chars_of(a);
    let w = chars_of(b);
    let mut i: usize = 0;
    let ghost v0 = v@;
    while i < w.len()
        invariant
            i <= w.len(),
            v@ == v0 + w@.take(i as int),
        decreases w.len() - i,
    {
        v.push(w[i]);
        i += 1;
        assert(v@ =~= v0 + w@.take(i as int));
    }
    assert(w@.take(i as int) =~= w@);
    string_of(&v)
}

/// Flag support from what probing the binary gave.
pub fn detect_llama_flag_support(binary_path: Option<&str>, help_text: Option<&str>, last_error: Option<&str>) -> (r: LlamaFlagSupport)
    ensures
        flag_support_matches(
            r,
            match binary_path {
                Some(p) => Some(p@),
                None => None,
            },
            match help_text {
                Some(t) => Some(t@),
                None => None,
            },
            match last_error {
                Some(e) => Some(e@),
                None => None,
            },
        ),
{
    let targets = llama_flag_detection_targets();
    match binary_path {
        None => {
            let mut missing: Vec<String> = Vec::new();
            let mut i: usize = 0;
            while i < targets.len()
                invariant
                    i <= targets.len(),
                    strs_view(targets@) == detection_targets(),
                    strings_view(missing@) == detection_targets().take(i as int),
                decreases targets.len() - i,
            {
                let t: &str = targets[i];
                assert(strs_view(targets@)[i as int] == t@);
                let ts = t.to_string();
                assert(ts@ == t@);
                let ghost before = strings_view(missing@);
                missing.push(ts);
                assert(strings_view(missing@) =~= before.push(t@));
                assert(detection_targets()[i as int] == t@);
                assert(detection_targets().take(i + 1) =~= detection_targets().take(i as int).push(t@));
                i += 1;
            }
            assert(detection_targets().take(i as int) =~= detection_targets());
            LlamaFlagSupport {
                checked: false,
                binary_path: None,
                supported_flags: Vec::new(),
                missing_critical_flags: missing,
                error: Some("llama-server binary not found".to_string()),
            }
        },
        Some(path) => match help_text {
            Some(text) => {
                let (supported, missing) = llama_flags_from_help_text(text, targets.as_slice());
                LlamaFlagSupport {
                    checked: true,
                    binary_path: Some(path.to_string()),
                    supported_flags: supported,
                    missing_critical_flags: missing,
                    error: None,
                }
            },
            None => {
                let detail = match last_error {
                    Some(e) => concat_str(": ", e),
                    None => String::new(),
                };
                LlamaFlagSupport {
                    checked: false,
                    binary_path: Some(path.to_string()),
                    supported_flags: Vec::new(),
                    missing_critical_flags: Vec::new(),
                    error: Some(concat_str("Unable to inspect llama-server flags", detail.as_str())),
                }
            },
        },
    }
}

/// Lexicographic order on character sequences (the order of `str`).
pub open spec fn seq_lt(a: Seq<char>, b: Seq<char>) -> bool
    decreases a.len(),
{
    if a.len() == 0 {
        b.len() > 0
    } else if b.len() == 0 {
        false
    } else if a[0] != b[0] {
        a[0] < b[0]
    } else {
        seq_lt(a.drop_first(), b.drop_first())
    }
}

/// Strictly increasing, hence sorted and free of duplicates.
pub open spec fn strictly_sorted(s: Seq<Seq<char>>) -> bool {
    forall|i: int, j: int| 0 <= i < j < s.len() ==> seq_lt(#[trigger] s[i], #[trigger] s[j])
}

pub proof fn lemma_seq_lt_irrefl(a: Seq<char>)
    ensures
        !seq_lt(a, a),
    decreases a.len(),
{
    if a.len() > 0 {
        lemma_seq_lt_irrefl(a.drop_first());
    }
}

pub proof fn lemma_seq_lt_total(a: Seq<char>, b: Seq<char>)
    ensures
        a != b ==> seq_lt(a, b) || seq_lt(b, a),
        !(seq_lt(a, b) && seq_lt(b, a)),
    decreases a.len(),
{
    if a.len() > 0 && b.len() > 0 && a[0] == b[0] {
        lemma_seq_lt_total(a.drop_first(), b.drop_first());
        if a.drop_first() == b.drop_first() {
            assert(a =~= seq![a[0]] + a.drop_first());
            assert(b =~= seq![b[0]] + b.drop_first());
        }
    } else if a.len() == 0 && b.len() == 0 {
        assert(a =~= b);
    }
}

pub proof fn lemma_seq_lt_trans(a: Seq<char>, b: Seq<char>, c: Seq<char>)
    requires
        seq_lt(a, b),
        seq_lt(b, c),
    ensures
        seq_lt(a, c),
    decreases a.len(),
{
    if a.len() > 0 && b.len() > 0 && c.len() > 0 && a[0] == b[0] && b[0] == c[0] {
        lemma_seq_lt_trans(a.drop_first(), b.drop_first(), c.drop_first());
    }
}

fn seq_lt_exec(a: &[char], b: &[char]) -> (r: bool)
    ensures
        r == seq_lt(a@, b@),
{
    let mut i: usize = 0;
    assert(a@.skip(0) =~= a@);
    assert(b@.skip(0) =~= b@);
    while i < a.len() && i < b.len() && a[i] == b[i]
        invariant
            i <= a.len(),
            i <= b.len(),
            seq_lt(a@, b@) == seq_lt(a@.skip(i as int), b@.skip(i as int)),
        decreases a.len() - i,
    {
        assert(a@.skip(i as int).drop_first() =~= a@.skip(i + 1));
        assert(b@.skip(i as int).drop_first() =~= b@.skip(i + 1));
        i += 1;
    }
    if i == a.len() {
        i < b.len()
    } else if i == b.len() {
        false
    } else {
        a[i] < b[i]
    }
}

/// The set of flags passed in `args` that the binary is known to lack:
/// empty unless support was checked and some flags are missing.
pub open spec fn unsupported_set(args: Seq<Seq<char>>, support: LlamaFlagSupport) -> Set<Seq<char>> {
    if !support.checked || support.missing_critical_flags@.len() == 0 {
        Set::empty()
    } else {
        Set::new(|a: Seq<char>| args.contains(a) && strings_view(support.missing_critical_flags@).contains(a))
    }
}

fn insert_sorted_unique(v: &mut Vec<String>, s: String)
    requires
        strictly_sorted(strings_view(old(v)@)),
    ensures
        strictly_sorted(strings_view(final(v)@)),
        strings_view(final(v)@).to_set() == strings_view(old(v)@).to_set().insert(s@),
{
    let ghost old_view = strings_view(v@);
    let sc = chars_of(s.as_str());
    let mut k: usize = 0;
    while k < v.len()
        invariant
            k <= v.len(),
            sc@ == s@,
            old_view == strings_view(v@),
            strictly_sorted(old_view),
            forall|j: int| 0 <= j < k ==> old_view[j] != s@,
        decreases v.len() - k,
    {
        let vk = chars_of(v[k].as_str());
        assert(old_view[k as int] == vk@);
        if chars_equal(&vk, &sc) {
            assert(old_view.to_set().insert(s@) =~= old_view.to_set());
            return;
        }
        k += 1;
    }
    let mut i: usize = 0;
    while i < v.len() && seq_lt_exec(&chars_of(v[i].as_str()), &sc)
        invariant
            i <= v.len(),
            sc@ == s@,
            old_view == strings_view(v@),
            forall|j: int| 0 <= j < i ==> seq_lt(#[trigger] old_view[j], s@),
        decreases v.len() - i,
    {
        assert(old_view[i as int] == v@[i as int]@);
        i += 1;
    }
    proof {
        if i < v.len() {
            let vi = old_view[i as int];
            assert(vi == v@[i as int]@);
            assert(vi != s@);
            lemma_seq_lt_total(vi, s@);
            assert(seq_lt(s@, vi));
            assert forall|j: int| i <= j < old_view.len() implies seq_lt(s@, #[trigger] old_view[j]) by {
                if j > i {
                    lemma_seq_lt_trans(s@, vi, old_view[j]);
                }
            }
        }
    }
    v.insert(i, s);
    let ghost nv = strings_view(v@);
    assert(nv =~= old_view.insert(i as int, sc@));
    assert(strictly_sorted(nv)) by {
        assert forall|a: int, b: int| 0 <= a < b < nv.len() implies seq_lt(#[trigger] nv[a], #[trigger] nv[b]) by {
            if b < i {
            } else if a < i && b == i {
            } else if a < i {
                assert(nv[b] == old_view[b - 1]);
                lemma_seq_lt_trans(nv[a], sc@, nv[b]);
            } else if a == i {
                assert(nv[b] == old_view[b - 1]);
            } else {
                assert(nv[a] == old_view[a - 1]);
                assert(nv[b] == old_view[b - 1]);
            }
        }
    }
    assert(nv.to_set() =~= old_view.to_set().insert(s@)) by {
        assert forall|x: Seq<char>| nv.to_set().contains(x) <==> old_view.to_set().insert(s@).contains(x) by {
            if nv.contains(x) {
                let k = choose|k: int| 0 <= k < nv.len() && nv[k] == x;
                if k > i {
                    assert(old_view[k - 1] == x);
                } else if k < i {
                    assert(old_view[k] == x);
                }
            }
            if old_view.contains(x) {
                let k = choose|k: int| 0 <= k < old_view.len() && old_view[k] == x;
                if k >= i {
                    assert(nv[k + 1] == x);
                } else {
                    assert(nv[k] == x);
                }
            }
            if x == s@ {
                assert(nv[i as int] == x);
            }
        }
    }
}

/// The flags in `args` that the binary lacks, sorted and without
/// duplicates.
pub fn unsupported_detected_launch_flags(args: &[String], support: &LlamaFlagSupport) -> (r: Vec<String>)
    ensures
        strictly_sorted(strings_view(r@)),
        strings_view(r@).to_set() == unsupported_set(strings_view(args@), *support),
{
    let mut out: Vec<String> = Vec::new();
    assert(strings_view(out@) =~= Seq::<Seq<char>>::empty());
    if !support.checked || support.missing_critical_flags.len() == 0 {
        assert(strings_view(out@).to_set() =~= Set::<Seq<char>>::empty());
        return out;
    }
    let ghost av = strings_view(args@);
    let ghost mv = strings_view(support.missing_critical_flags@);
    let mut i: usize = 0;
    while i < args.len()
        invariant
            i <= args.len(),
            av == strings_view(args@),
            mv == strings_view(support.missing_critical_flags@),
            strictly_sorted(strings_view(out@)),
            strings_view(out@).to_set() == Set::new(
                |a: Seq<char>| av.take(i as int).contains(a) && mv.contains(a),
            ),
        decreases args.len() - i,
    {
        let a = chars_of(args[i].as_str());
        assert(av[i as int] == a@);
        let mut found = false;
        let mut k: usize = 0;
        while k < support.missing_critical_flags.len()
            invariant
                k <= support.missing_critical_flags.len(),
                mv == strings_view(support.missing_critical_flags@),
                found == (exists|j: int| 0 <= j < k && mv[j] == a@),
            decreases support.missing_critical_flags.len() - k,
        {
            let m = chars_of(support.missing_critical_flags[k].as_str());
            assert(mv[k as int] == m@);
            if chars_equal(&m, &a) {
                found = true;
            }
            k += 1;
        }
        let ghost before = strings_view(out@).to_set();
        if found {
            insert_sorted_unique(&mut out, args[i].clone());
        }
        proof {
            let t0 = av.take(i as int);
            let t1 = av.take(i + 1);
            assert forall|x: Seq<char>| #![auto] t1.contains(x) <==> (t0.contains(x) || x == a@) by {
                if t1.contains(x) {
                    let w = choose|w: int| 0 <= w < t1.len() && t1[w] == x;
                    if w < i {
                        assert(t0[w] == x);
                    }
                }
                if t0.contains(x) {
                    let w = choose|w: int| 0 <= w < t0.len() && t0[w] == x;
                    assert(t1[w] == x);
                }
                if x == a@ {
                    assert(t1[i as int] == x);
                }
            }
            assert(strings_view(out@).to_set() =~= Set::new(
                |x: Seq<char>| t1.contains(x) && mv.contains(x),
            ));
        }
        i += 1;
    }
    assert(av.take(i as int) =~= av);
    assert(strings_view(out@).to_set() =~= unsupported_set(av, *support));
    out
}

// ---------------------------------------------------------------------------
// Reasoning mode
// ---------------------------------------------------------------------------

/// Reasoning-mode words that turn thinking off.
pub open spec fn thinking_off_words() -> Seq<Seq<char>> {
    seq!["off"@, "false"@, "none"@, "disabled"@, "disable"@, "0"@, "no"@]
}

pub open spec fn disables_thinking(mode: Option<Seq<char>>) -> bool {
    match mode {
        Some(m) => thinking_off_words().contains(ascii_lower(trim(m))),
        None => false,
    }
}

/// Does this reasoning mode (trimmed, in any ASCII case) turn thinking off?
pub fn reasoning_mode_disables_thinking(reasoning_mode: Option<&str>) -> (b: bool)
    ensures
        b == disables_thinking(
            match reasoning_mode {
                Some(m) => Some(m@),
                None => None,
            },
        ),
{
    let m = match reasoning_mode {
        None => {
            return false;
        },
        Some(m) => m,
    };
    let v = ascii_lower_chars(&trim_str(m));
    let words = vec![
        chars_of("off"), chars_of("false"), chars_of("none"), chars_of("disabled"),
        chars_of("disable"), chars_of("0"), chars_of("no"),
    ];
    assert(words@.map_values(|p: Vec<char>| p@) =~= thinking_off_words());
    let mut i: usize = 0;
    while i < words.len()
        invariant
            i <= words.len(),
            words@.map_values(|p: Vec<char>| p@) == thinking_off_words(),
            v@ == ascii_lower(trim(m@)),
            reasoning_mode == Some(m),
            forall|j: int| 0 <= j < i ==> thinking_off_words()[j] != v@,
        decreases words.len() - i,
    {
        assert(thinking_off_words()[i as int] == words@[i as int]@);
        if chars_equal(&v, &words[i]) {
            return true;
        }
        i += 1;
    }
    false
}

// ---------------------------------------------------------------------------
// Finding a binary
// ---------------------------------------------------------------------------

/// A binary found on disk, with whether CUDA libraries sit beside it.
#[derive(Clone, Debug)]
pub struct BinaryCandidate {
    pub path: String,
    pub has_cuda_libs: bool,
}

/// A binary looks like a CUDA build when its path mentions CUDA (in any
/// case) or CUDA libraries sit beside it.
pub open spec fn looks_cuda(path: Seq<char>, has_cuda_libs: bool) -> bool {
    contains_seq(unicode_lowercase(path), "cuda"@) || has_cuda_libs
}

/// A `cuda` preference takes CUDA builds only, `cpu` and `avx2` anything
/// else, and any other preference every build.
pub open spec fn fits_preference(c: BinaryCandidate, preference: Seq<char>) -> bool {
    if preference == "cuda"@ {
        looks_cuda(c.path@, c.has_cuda_libs)
    } else if preference == "cpu"@ || preference == "avx2"@ {
        !looks_cuda(c.path@, c.has_cuda_libs)
    } else {
        true
    }
}

fn same_text(a: &str, b: &str) -> (r: bool)
    ensures
        r == (a@ == b@),
{
    chars_equal(&chars_of(a), &chars_of(b))
}

/// Does a binary fit the backend preference?
pub fn matches_backend_preference(candidate: &BinaryCandidate, preference: &str) -> (b: bool)
    ensures
        b == fits_preference(*candidate, preference@),
{
    let cuda = contains_chars(&chars_of(to_lowercase(candidate.path.as_str()).as_str()), &chars_of("cuda"))
        || candidate.has_cuda_libs;
    if same_text(preference, "cuda") {
        cuda
    } else if same_text(preference, "cpu") || same_text(preference, "avx2") {
        !cuda
    } else {
        true
    }
}

/// The binary to run: the configured one if it exists, whatever it is;
/// else the managed install if it exists and fits the preference; else the
/// first found elsewhere that fits.
pub fn choose_binary(
    explicit_if_present: Option<String>,
    managed_if_present: Option<BinaryCandidate>,
    found: &Vec<BinaryCandidate>,
    preference: &str,
) -> (r: Option<String>)
    ensures
        explicit_if_present is Some ==> r == explicit_if_present,
        explicit_if_present is None && (managed_if_present matches Some(m) && fits_preference(m, preference@))
            ==> r == Some(managed_if_present->0.path),
        explicit_if_present is None && !(managed_if_present matches Some(m) && fits_preference(m, preference@))
            ==> match r {
            Some(p) => exists|i: int|
                0 <= i < found@.len() && fits_preference(#[trigger] found@[i], preference@) && found@[i].path == p
                    && forall|j: int| 0 <= j < i ==> !fits_preference(#[trigger] found@[j], preference@),
            None => forall|i: int| 0 <= i < found@.len() ==> !fits_preference(#[trigger] found@[i], preference@),
        },
{
    if explicit_if_present.is_some() {
        return explicit_if_present;
    }
    match &managed_if_present {
        Some(m) => {
            if matches_backend_preference(m, preference) {
                return Some(m.path.clone());
            }
        },
        None => {},
    }
    let mut i: usize = 0;
    while i < found.len()
        invariant
            i <= found@.len(),
            explicit_if_present is None,
            !(managed_if_present matches Some(m) && fits_preference(m, preference@)),
            forall|j: int| 0 <= j < i ==> !fits_preference(#[trigger] found@[j], preference@),
        decreases found@.len() - i,
    {
        if matches_backend_preference(&found[i], preference) {
            let p = found[i].path.clone();
            assert(fits_preference(found@[i as int], preference@) && found@[i as int].path == p);
            return Some(p);
        }
        i += 1;
    }
    None
}

/// A WinGet package folder that may hold llama.cpp binaries.
pub fn is_llama_package_dir(name: &str) -> (b: bool)
    ensures
        b == (contains_seq(name@, "llamacpp"@) || contains_seq(name@, "llama.cpp"@) || contains_seq(name@, "ggml"@)),
{
    let n = chars_of(name);
    contains_chars(&n, &chars_of("llamacpp")) || contains_chars(&n, &chars_of("llama.cpp")) || contains_chars(&n, &chars_of("ggml"))
}

// ---------------------------------------------------------------------------
// Load progress in llama-server's console output
// ---------------------------------------------------------------------------

/// A stage of model loading that llama-server reports in a recognisable
/// line.
#[derive(Clone, Copy, Debug, PartialEq, Eq, Structural)]
pub enum LoadMilestone {
    LoadingTensors,
    BufferSize,
    KvCache,
    WarmingUp,
    Ready,
}

/// What a console line says about load progress: the layer counts of an
/// `offloaded D/T layers` report (as printed), a number just before a `%`
/// sign (as printed), and the milestone the line marks. The figures are
/// read as numbers by the caller.
#[derive(Clone, Debug)]
pub struct LoadSignals {
    pub offload: Option<(String, String)>,
    pub percent: Option<String>,
    pub milestone: Option<LoadMilestone>,
}

pub ghost struct SignalsModel {
    pub offload: Option<(Seq<char>, Seq<char>)>,
    pub percent: Option<Seq<char>>,
    pub milestone: Option<LoadMilestone>,
}

impl View for LoadSignals {
    type V = SignalsModel;

    open spec fn view(&self) -> SignalsModel {
        SignalsModel {
            offload: match self.offload {
                Some((d, t)) => Some((d@, t@)),
                None => None,
            },
            percent: match self.percent {
                Some(p) => Some(p@),
                None => None,
            },
            milestone: self.milestone,
        }
    }
}

/// The text between the first `offloaded ` and the next one (or the end),
/// cut before ` layers`.
pub open spec fn offload_fraction(s: Seq<char>) -> Option<Seq<char>> {
    let key = "offloaded "@;
    match find_from(s, key, 0) {
        None => None,
        Some(i) => {
            let start = i + key.len();
            let piece = match find_from(s, key, start) {
                Some(j) => s.subrange(start, j),
                None => s.subrange(start, s.len() as int),
            };
            Some(match find_from(piece, " layers"@, 0) {
                Some(k) => piece.take(k),
                None => piece,
            })
        },
    }
}

/// The two sides of the fraction's first `/`, trimmed.
pub open spec fn offload_counts(s: Seq<char>) -> Option<(Seq<char>, Seq<char>)> {
    match offload_fraction(s) {
        None => None,
        Some(f) => match index_of_char(f, '/') {
            Some(k) => Some((trim(f.take(k)), trim(f.skip(k + 1)))),
            None => None,
        },
    }
}

/// Where the run of ASCII digits and dots that ends at `pos` starts.
pub open spec fn number_run_start(s: Seq<char>, pos: int) -> int
    decreases pos,
{
    if pos > 0 && pos <= s.len() && (is_ascii_digit(s[pos - 1]) || s[pos - 1] == '.') {
        number_run_start(s, pos - 1)
    } else {
        pos
    }
}

/// The number just before the first `%`, without surrounding dots.
pub open spec fn percent_token(s: Seq<char>) -> Option<Seq<char>> {
    match index_of_char(s, '%') {
        None => None,
        Some(pos) => {
            let token = trim_char(s.subrange(number_run_start(s, pos), pos), '.');
            if token.len() == 0 { None } else { Some(token) }
        },
    }
}

pub open spec fn milestone_of(s: Seq<char>) -> Option<LoadMilestone> {
    if contains_seq(s, "loading model tensors"@) {
        Some(LoadMilestone::LoadingTensors)
    } else if contains_seq(s, "model buffer size"@) {
        Some(LoadMilestone::BufferSize)
    } else if contains_seq(s, "kv cache"@) || contains_seq(s, "kv self size"@) {
        Some(LoadMilestone::KvCache)
    } else if contains_seq(s, "warming up"@) || contains_seq(s, "warmup"@) {
        Some(LoadMilestone::WarmingUp)
    } else if contains_seq(s, "model loaded"@) || contains_seq(s, "server is listening"@) || contains_seq(
        s,
        "starting the main loop"@,
    ) {
        Some(LoadMilestone::Ready)
    } else {
        None
    }
}

fn offload_counts_exec(s: &[char]) -> (r: Option<(String, String)>)
    ensures
        match offload_counts(s@) {
            Some((d, t)) => r matches Some((rd, rt)) && rd@ == d && rt@ == t,
            None => r is None,
        },
{
    let key = chars_of("offloaded ");
    proof {
        lemma_find_from(s@, key@, 0);
    }
    let i = match find_chars_from(s, &key, 0) {
        None => {
            return None;
        },
        Some(i) => i,
    };
    assert(crate::text::occurs_at(s@, key@, i as int));
    assert(i + key.len() <= s.len());
    let start = i + key.len();
    proof {
        lemma_find_from(s@, key@, start as int);
    }
    let piece = match find_chars_from(s, &key, start) {
        Some(j) => slice_chars(s, start, j),
        None => slice_chars(s, start, s.len()),
    };
    let layers = chars_of(" layers");
    proof {
        lemma_find_from(piece@, layers@, 0);
    }
    let frac = match find_chars_from(&piece, &layers, 0) {
        Some(k) => slice_chars(&piece, 0, k),
        None => slice_chars(&piece, 0, piece.len()),
    };
    assert(piece@.subrange(0, piece@.len() as int) =~= piece@);
    assert(offload_fraction(s@) == Some(frac@)) by {
        if let Some(k) = find_from(piece@, layers@, 0) {
            assert(piece@.subrange(0, k) =~= piece@.take(k));
        }
    }
    proof {
        lemma_index_of_char(frac@, '/');
    }
    match index_of_char_exec(&frac, '/') {
        Some(k) => {
            let done = trim_chars(&slice_chars(&frac, 0, k));
            let total = trim_chars(&slice_chars(&frac, k + 1, frac.len()));
            assert(frac@.subrange(0, k as int) =~= frac@.take(k as int));
            assert(frac@.subrange(k + 1, frac@.len() as int) =~= frac@.skip(k + 1));
            Some((string_of(&done), string_of(&total)))
        },
        None => None,
    }
}

fn percent_token_exec(s: &[char]) -> (r: Option<String>)
    ensures
        match percent_token(s@) {
            Some(t) => r matches Some(rt) && rt@ == t,
            None => r is None,
        },
{
    proof {
        lemma_index_of_char(s@, '%');
    }
    let pos = match index_of_char_exec(s, '%') {
        None => {
            return None;
        },
        Some(p) => p,
    };
    let mut start: usize = pos;
    while start > 0 && (('0' <= s[start - 1] && s[start - 1] <= '9') || s[start - 1] == '.')
        invariant
            start <= pos < s.len(),
            number_run_start(s@, start as int) == number_run_start(s@, pos as int),
        decreases start,
    {
        start -= 1;
    }
    let token = trim_char_chars(&slice_chars(s, start, pos), '.');
    if token.len() == 0 {
        None
    } else {
        Some(string_of(&token))
    }
}

fn has(s: &[char], lit: &str) -> (b: bool)
    ensures
        b == contains_seq(s@, lit@),
{
    contains_chars(s, &chars_of(lit))
}

/// What a console line says about load progress, read case-insensitively.
pub fn load_progress_signals(line: &str) -> (r: LoadSignals)
    ensures
        r@.offload == offload_counts(unicode_lowercase(line@)),
        r@.percent == percent_token(unicode_lowercase(line@)),
        r@.milestone == milestone_of(unicode_lowercase(line@)),
{
    let lower = chars_of(to_lowercase(line).as_str());
    let offload = offload_counts_exec(&lower);
    let percent = percent_token_exec(&lower);
    let milestone = if has(&lower, "loading model tensors") {
        Some(LoadMilestone::LoadingTensors)
    } else if has(&lower, "model buffer size") {
        Some(LoadMilestone::BufferSize)
    } else if has(&lower, "kv cache") || has(&lower, "kv self size") {
        Some(LoadMilestone::KvCache)
    } else if has(&lower, "warming up") || has(&lower, "warmup") {
        Some(LoadMilestone::WarmingUp)
    } else if has(&lower, "model loaded") || has(&lower, "server is listening") || has(&lower, "starting the main loop") {
        Some(LoadMilestone::Ready)
    } else {
        None
    };
    LoadSignals { offload, percent, milestone }
}

} // verus!

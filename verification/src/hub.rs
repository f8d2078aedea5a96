//! Hugging Face model records and how the model browser presents them.
//!
//! The browser lists GGUF repositories found by the Hugging Face API. This
//! module decides which records may be downloaded and shown, turns a record
//! into the browser's card (quantisations, parameter count, tags), and
//! derives search queries from a local GGUF file name.

use vstd::prelude::*;
use vstd::arithmetic::power2::pow2;
use crate::text::{chars_equal, chars_of, contains_chars, contains_seq, decimal, decimal_chars, digit_char, ends_with, ends_with_chars, eq_ignore_ascii_case, join_chars, join_with, lemma_split_on_len, path_file_name, path_file_stem, plain_file_name, plain_name_of, lemma_plain_name_of, stem_of, verbatim_prefixed, replace_char, slice_chars, split_chars, split_on, starts_with, starts_with_chars, string_of, to_lowercase, to_uppercase, trim, trim_char, trim_char_chars, trim_chars, trim_end_seq, trim_end_seq_chars, unicode_lowercase, unicode_uppercase, utf8_len, ascii_lower_chars};

verus! {

broadcast use vstd::string::group_string_axioms;

pub open spec fn opt_str_view(o: Option<String>) -> Option<Seq<char>> {
    match o {
        Some(s) => Some(s@),
        None => None,
    }
}

pub fn clone_opt_string(o: &Option<String>) -> (r: Option<String>)
    ensures
        opt_str_view(r) == opt_str_view(*o),
{
    match o {
        Some(s) => Some(s.clone()),
        None => None,
    }
}

pub open spec fn strings_view(v: Seq<String>) -> Seq<Seq<char>> {
    v.map_values(|s: String| s@)
}

// ---------------------------------------------------------------------------
// Records returned by the Hugging Face API
// ---------------------------------------------------------------------------

/// Git LFS metadata of a repository file.
#[derive(Clone, Debug)]
pub struct HfLfs {
    pub size: Option<u64>,
}

/// A file of a repository.
#[derive(Clone, Debug)]
pub struct HfSibling {
    pub rfilename: String,
    pub size: Option<u64>,
    pub lfs: Option<HfLfs>,
}

/// GGUF metadata the API reports for a repository.
#[derive(Clone, Debug)]
pub struct HfGgufMetadata {
    pub total: Option<u64>,
    pub architecture: Option<String>,
    pub context_length: Option<u64>,
}

/// The `gated` field of a repository record, which the API sends as
/// `false`, `null`, or the gating mode as text.
#[derive(Clone, Debug)]
pub enum GatedValue {
    Null,
    Bool(bool),
    Text(String),
    /// A number, array or object.
    Other,
}

/// A repository record of the Hugging Face model API.
#[derive(Clone, Debug)]
pub struct HfApiModel {
    pub model_id: String,
    pub author: Option<String>,
    pub downloads: u64,
    pub likes: u64,
    pub created_at: Option<String>,
    pub last_modified: Option<String>,
    pub pipeline_tag: Option<String>,
    pub library_name: Option<String>,
    pub tags: Vec<String>,
    pub gguf: Option<HfGgufMetadata>,
    pub private: bool,
    pub disabled: bool,
    pub gated: Option<GatedValue>,
    pub siblings: Vec<HfSibling>,
}

// ---------------------------------------------------------------------------
// Small presentations
// ---------------------------------------------------------------------------

/// Quantisation labels recognised in file names, checked in this order.
pub open spec fn known_quants() -> Seq<Seq<char>> {
    seq![
        "IQ4_XS"@, "IQ4_NL"@, "IQ3_XXS"@, "IQ3_XS"@, "IQ2_XXS"@, "IQ2_XS"@, "Q8_0"@, "Q6_K"@,
        "Q5_K_M"@, "Q5_K_S"@, "Q5_1"@, "Q5_0"@, "Q4_K_M"@, "Q4_K_S"@, "Q4_1"@, "Q4_0"@,
        "Q3_K_M"@, "Q3_K_L"@, "Q3_K_S"@, "Q2_K"@, "F16"@, "BF16"@,
    ]
}

/// Index of the first of `list[k..]` contained in `s`.
pub open spec fn first_contained(s: Seq<char>, list: Seq<Seq<char>>, k: int) -> Option<int>
    decreases list.len() - k,
{
    if k < 0 || k >= list.len() {
        None
    } else if contains_seq(s, list[k]) {
        Some(k)
    } else {
        first_contained(s, list, k + 1)
    }
}

/// The quantisation label of a GGUF file name: the first known label found
/// in the uppercased name, or else the uppercased last `-` piece of the name
/// without its `.gguf` suffixes.
pub open spec fn quant_label(filename: Seq<char>) -> Seq<char> {
    match first_contained(unicode_uppercase(filename), known_quants(), 0) {
        Some(k) => known_quants()[k],
        None => unicode_uppercase(split_on(trim_end_seq(filename, ".gguf"@), '-').last()),
    }
}

fn known_quants_exec() -> (v: Vec<Vec<char>>)
    ensures
        v@.map_values(|p: Vec<char>| p@) == known_quants(),
{
    let v = vec![
        chars_of("IQ4_XS"), chars_of("IQ4_NL"), chars_of("IQ3_XXS"), chars_of("IQ3_XS"),
        chars_of("IQ2_XXS"), chars_of("IQ2_XS"), chars_of("Q8_0"), chars_of("Q6_K"),
        chars_of("Q5_K_M"), chars_of("Q5_K_S"), chars_of("Q5_1"), chars_of("Q5_0"),
        chars_of("Q4_K_M"), chars_of("Q4_K_S"), chars_of("Q4_1"), chars_of("Q4_0"),
        chars_of("Q3_K_M"), chars_of("Q3_K_L"), chars_of("Q3_K_S"), chars_of("Q2_K"),
        chars_of("F16"), chars_of("BF16"),
    ];
    assert(v@.map_values(|p: Vec<char>| p@) =~= known_quants());
    v
}

/// The quantisation label shown for a GGUF file.
pub fn extract_quant(filename: &str) -> (r: String)
    ensures
        r@ == quant_label(filename@),
{
    let upper = chars_of(&to_uppercase(filename));
    let known = known_quants_exec();
    let mut k: usize = 0;
    while k < known.len()
        invariant
            k <= known.len(),
            known@.map_values(|p: Vec<char>| p@) == known_quants(),
            upper@ == unicode_uppercase(filename@),
            first_contained(upper@, known_quants(), 0) == first_contained(upper@, known_quants(), k as int),
        decreases known.len() - k,
    {
        assert(known@[k as int]@ == known_quants()[k as int]);
        if contains_chars(&upper, &known[k]) {
            return string_of(&known[k]);
        }
        k += 1;
    }
    proof {
        reveal_strlit(".gguf");
    }
    let stem = trim_end_seq_chars(&chars_of(filename), &chars_of(".gguf"));
    let pieces = split_chars(&stem, '-');
    proof {
        lemma_split_on_len(stem@, '-');
    }
    let last = &pieces[pieces.len() - 1];
    assert(last@ == split_on(stem@, '-').last());
    to_uppercase(string_of(last).as_str())
}

/// Thousands separated by commas, as in `1,234,567`.
pub open spec fn group_thousands(d: Seq<char>) -> Seq<char>
    decreases d.len(),
{
    if d.len() <= 3 {
        d
    } else {
        group_thousands(d.take(d.len() - 3)) + seq![','] + d.skip(d.len() - 3)
    }
}

fn group_thousands_exec(d: &[char]) -> (r: Vec<char>)
    ensures
        r@ == group_thousands(d@),
    decreases d.len(),
{
    if d.len() <= 3 {
        slice_chars(d, 0, d.len())
    } else {
        let head = slice_chars(d, 0, d.len() - 3);
        let mut r = group_thousands_exec(&head);
        r.push(',');
        let mut i: usize = d.len() - 3;
        let ghost r0 = r@;
        while i < d.len()
            invariant
                d.len() > 3,
                d.len() - 3 <= i <= d.len(),
                r@ == r0 + d@.subrange(d.len() - 3, i as int),
            decreases d.len() - i,
        {
            r.push(d[i]);
            i += 1;
            assert(r@ =~= r0 + d@.subrange(d.len() - 3, i as int));
        }
        assert(d@.subrange(d.len() - 3, d.len() as int) =~= d@.skip(d.len() - 3));
        assert(r0 =~= group_thousands(d@.take(d.len() - 3)) + seq![',']);
        r
    }
}

/// A download count with thousands separators.
pub fn format_downloads(downloads: u64) -> (r: String)
    ensures
        r@ == group_thousands(decimal(downloads as nat)),
{
    let digits = decimal_chars(downloads);
    string_of(&group_thousands_exec(&digits))
}

/// Number of binary digits of `n` (none for zero).
pub open spec fn bit_len(n: nat) -> nat
    decreases n,
{
    if n == 0 {
        0
    } else {
        1 + bit_len(n / 2)
    }
}

/// `a / b` rounded to the nearest integer, a half to the even one.
pub open spec fn round_half_even(a: nat, b: nat) -> nat {
    let q = a / b;
    let r = a % b;
    if r * 2 > b || (r * 2 == b && q % 2 == 1) {
        q + 1
    } else {
        q
    }
}

/// `t as f64`: the integer rounded to 53 significant bits, a half to even.
pub open spec fn f64_of(t: nat) -> nat {
    if bit_len(t) <= 53 {
        t
    } else {
        let sh = (bit_len(t) - 53) as nat;
        round_half_even(t, pow2(sh)) * pow2(sh)
    }
}

/// The binary shift at which the quotient `x / s` (at least 1) has 53
/// integer bits.
pub open spec fn quotient_shift(x: nat, s: nat) -> nat {
    (53 - bit_len(x / s)) as nat
}

/// `total as f64 / scale as f64` written with one decimal (`{:.1}`), in
/// tenths: the quotient rounded to 53 significant bits, then to tenths,
/// each time a half to the even neighbour.
pub open spec fn f64_tenths(total: nat, scale: nat) -> nat {
    let x = f64_of(total);
    let p = quotient_shift(x, scale);
    round_half_even(round_half_even(x * pow2(p), scale) * 10, pow2(p))
}

/// `total / scale` as `f64` written with one decimal, without a trailing
/// `.0`, followed by `suffix`.
pub open spec fn scaled_text(total: nat, scale: nat, suffix: char) -> Seq<char> {
    let tenths = f64_tenths(total, scale);
    let whole = tenths / 10;
    let frac = tenths % 10;
    if frac == 0 {
        decimal(whole).push(suffix)
    } else {
        decimal(whole).push('.').push(digit_char(frac)).push(suffix)
    }
}

/// A parameter count in billions (`27.3B`) or millions (`355M`), or as a
/// plain number below a million.
pub open spec fn parameter_count_text(total: nat) -> Seq<char> {
    if total >= 1_000_000_000 {
        scaled_text(total, 1_000_000_000, 'B')
    } else if total >= 1_000_000 {
        scaled_text(total, 1_000_000, 'M')
    } else {
        decimal(total)
    }
}

/// `n` is below `2^k` exactly when it has at most `k` binary digits.
proof fn lemma_bit_len_below(n: nat, k: nat)
    ensures
        n < pow2(k) <==> bit_len(n) <= k,
    decreases n,
{
    if n == 0 {
        vstd::arithmetic::power2::lemma_pow2_pos(k);
    } else if k == 0 {
        vstd::arithmetic::power2::lemma2_to64();
    } else {
        vstd::arithmetic::power2::lemma_pow2_unfold(k);
        lemma_bit_len_below(n / 2, (k - 1) as nat);
    }
}

fn bit_len_exec(n: u64) -> (r: u32)
    ensures
        r == bit_len(n as nat),
        r <= 64,
{
    let mut v: u64 = n;
    let mut l: u32 = 0;
    proof {
        vstd::arithmetic::power2::lemma2_to64();
    }
    while v > 0
        invariant
            bit_len(n as nat) == l + bit_len(v as nat),
            l <= 64,
            v < pow2((64 - l) as nat),
        decreases v,
    {
        proof {
            if l == 64 {
                vstd::arithmetic::power2::lemma2_to64();
            } else {
                vstd::arithmetic::power2::lemma_pow2_unfold((64 - l) as nat);
            }
        }
        v = v / 2;
        l = l + 1;
    }
    l
}

fn pow2_exec(k: u32) -> (r: u128)
    requires
        k <= 63,
    ensures
        r == pow2(k as nat),
{
    let mut r: u128 = 1;
    let mut i: u32 = 0;
    proof {
        vstd::arithmetic::power2::lemma2_to64();
    }
    while i < k
        invariant
            i <= k <= 63,
            r == pow2(i as nat),
        decreases k - i,
    {
        proof {
            vstd::arithmetic::power2::lemma_pow2_unfold((i + 1) as nat);
            vstd::arithmetic::power2::lemma_pow2_strictly_increases((i + 1) as nat, 64);
            vstd::arithmetic::power2::lemma2_to64();
        }
        r = r * 2;
        i = i + 1;
    }
    r
}

fn round_half_even_exec(a: u128, b: u128) -> (r: u128)
    requires
        0 < b < 0x1_0000_0000_0000_0000,
        a < 0x1_0000_0000_0000_0000_0000_0000_0000,
    ensures
        r == round_half_even(a as nat, b as nat),
{
    let q = a / b;
    let m = a % b;
    if m * 2 > b || (m * 2 == b && q % 2 == 1) {
        q + 1
    } else {
        q
    }
}

/// The rounded quotient stays within 53 bits and the tenths within 64.
proof fn lemma_quotient_bounds(x: nat, s: nat, lq: nat)
    requires
        s > 0,
        lq == bit_len(x / s),
        lq <= 53,
    ensures
        x * pow2((53 - lq) as nat) < s * pow2(53),
        round_half_even(x * pow2((53 - lq) as nat), s) <= pow2(53),
{
    let q = x / s;
    lemma_bit_len_below(q, lq);
    vstd::arithmetic::power2::lemma_pow2_adds(lq, (53 - lq) as nat);
    let p = pow2((53 - lq) as nat);
    vstd::arithmetic::power2::lemma_pow2_pos((53 - lq) as nat);
    assert(x < s * (q + 1)) by (nonlinear_arith)
        requires
            s > 0,
            q == x / s,
    ;
    assert(q + 1 <= pow2(lq));
    assert(s * (q + 1) <= s * pow2(lq)) by (nonlinear_arith)
        requires
            q + 1 <= pow2(lq),
    ;
    assert(x * p < s * pow2(lq) * p) by (nonlinear_arith)
        requires
            x < s * pow2(lq),
            p > 0,
    ;
    assert(s * pow2(lq) * p == s * pow2(53)) by (nonlinear_arith)
        requires
            pow2(lq) * p == pow2(53),
    ;
    let a = x * p;
    assert(a / s < pow2(53)) by (nonlinear_arith)
        requires
            a < s * pow2(53),
            s > 0,
    ;
}

fn scaled_text_exec(total: u64, scale: u64, suffix: char) -> (r: String)
    requires
        scale == 1_000_000_000 || scale == 1_000_000,
        total >= scale,
    ensures
        r@ == scaled_text(total as nat, scale as nat, suffix),
{
    proof {
        vstd::arithmetic::power2::lemma2_to64();
        vstd::arithmetic::power2::lemma2_to64_rest();
    }
    let lt = bit_len_exec(total);
    let x: u128 = if lt <= 53 {
        total as u128
    } else {
        let d = pow2_exec(lt - 53);
        proof {
            vstd::arithmetic::power2::lemma_pow2_strictly_increases((lt - 53) as nat, 12);
        }
        let k = round_half_even_exec(total as u128, d);
        assert(k <= total as nat / d as nat + 1);
        assert(k * d <= total as nat + d) by (nonlinear_arith)
            requires
                k <= total as nat / d as nat + 1,
                d > 0,
        ;
        k * d
    };
    assert(x == f64_of(total as nat));
    assert(x < 0x2_0000_0000_0000_0000u128);
    let s: u128 = scale as u128;
    let qd: u128 = x / s;
    assert(qd < 0x1_0000_0000_0000_0000u128) by (nonlinear_arith)
        requires
            x < 0x2_0000_0000_0000_0000u128,
            s >= 1_000_000,
            qd == x / s,
    ;
    let lq = bit_len_exec(qd as u64);
    proof {
        lemma_bit_len_below(qd as nat, 53);
    }
    assert(qd < 0x20000000000000u128) by (nonlinear_arith)
        requires
            x < 0x2_0000_0000_0000_0000u128,
            s >= 1_000_000,
            qd == x / s,
    ;
    assert(lq <= 53);
    let p = 53 - lq;
    let big_p = pow2_exec(p);
    proof {
        lemma_quotient_bounds(x as nat, s as nat, lq as nat);
    }
    assert(x * big_p < 0x1_0000_0000_0000_0000_0000_0000u128) by (nonlinear_arith)
        requires
            x * big_p < s * 0x20000000000000u128,
            s <= 1_000_000_000,
    ;
    let m = round_half_even_exec(x * big_p, s);
    assert(big_p <= 0x20000000000000u128) by {
        if p < 53 {
            vstd::arithmetic::power2::lemma_pow2_strictly_increases(p as nat, 53);
        }
    }
    let tenths = round_half_even_exec(m * 10, big_p);
    assert(tenths <= (m * 10) as nat / big_p as nat + 1);
    assert((m * 10) as nat / big_p as nat <= m * 10) by (nonlinear_arith)
        requires
            big_p >= 1,
    ;
    assert(tenths == f64_tenths(total as nat, scale as nat));
    let whole: u64 = (tenths / 10) as u64;
    let frac: u8 = (tenths % 10) as u8;
    let mut r = decimal_chars(whole);
    if frac != 0 {
        r.push('.');
        let d = (('0' as u8) + frac) as char;
        assert(d == digit_char(frac as nat));
        r.push(d);
    }
    r.push(suffix);
    string_of(&r)
}

/// A compact parameter count: `27.3B`, `7.5B`, `355M`.
pub fn format_parameter_count(total: u64) -> (r: String)
    ensures
        r@ == parameter_count_text(total as nat),
{
    if total >= 1_000_000_000 {
        scaled_text_exec(total, 1_000_000_000, 'B')
    } else if total >= 1_000_000 {
        scaled_text_exec(total, 1_000_000, 'M')
    } else {
        string_of(&decimal_chars(total))
    }
}

pub open spec fn sibling_size(file: HfSibling) -> Option<u64> {
    match file.size {
        Some(n) => Some(n),
        None => match file.lfs {
            Some(l) => l.size,
            None => None,
        },
    }
}

/// Size of a repository file: its own size, or else its LFS size.
pub fn file_size_bytes(file: &HfSibling) -> (r: Option<u64>)
    ensures
        r == sibling_size(*file),
{
    match file.size {
        Some(n) => Some(n),
        None => match &file.lfs {
            Some(l) => l.size,
            None => None,
        },
    }
}

/// The rest of the first tag that starts with `prefix`.
pub open spec fn tag_value_of(tags: Seq<Seq<char>>, prefix: Seq<char>) -> Option<Seq<char>> {
    if exists|i: int| 0 <= i < tags.len() && starts_with(#[trigger] tags[i], prefix) {
        let i = choose|i: int|
            0 <= i < tags.len() && starts_with(tags[i], prefix) && forall|j: int|
                0 <= j < i ==> !starts_with(#[trigger] tags[j], prefix);
        Some(tags[i].skip(prefix.len() as int))
    } else {
        None
    }
}

proof fn lemma_least_tag(tags: Seq<Seq<char>>, prefix: Seq<char>, w: int)
    requires
        0 <= w < tags.len(),
        starts_with(tags[w], prefix),
        forall|j: int| 0 <= j < w ==> !starts_with(#[trigger] tags[j], prefix),
    ensures
        tag_value_of(tags, prefix) == Some(tags[w].skip(prefix.len() as int)),
{
    let i = choose|i: int|
        0 <= i < tags.len() && starts_with(tags[i], prefix) && forall|j: int|
            0 <= j < i ==> !starts_with(#[trigger] tags[j], prefix);
    assert(i == w) by {
        if i < w {
            assert(!starts_with(tags[i], prefix));
        } else if i > w {
            assert(!starts_with(tags[w], prefix));
        }
    }
}

/// The value of the first `prefix` tag, such as `license:` in `license:mit`.
pub fn tag_value(tags: &[String], prefix: &str) -> (r: Option<String>)
    ensures
        opt_str_view(r) == tag_value_of(strings_view(tags@), prefix@),
{
    let p = chars_of(prefix);
    let ghost views = strings_view(tags@);
    let mut i: usize = 0;
    while i < tags.len()
        invariant
            i <= tags.len(),
            p@ == prefix@,
            views == strings_view(tags@),
            forall|j: int| 0 <= j < i ==> !starts_with(#[trigger] views[j], prefix@),
        decreases tags.len() - i,
    {
        let t = chars_of(tags[i].as_str());
        assert(views[i as int] == t@);
        if starts_with_chars(&t, &p) {
            proof {
                lemma_least_tag(views, prefix@, i as int);
            }
            return Some(string_of(&slice_chars(&t, p.len(), t.len())));
        }
        i += 1;
    }
    None
}

/// Whether a record may be downloaded: not disabled, not private unless
/// signed in, and not gated unless signed in (`gated` absent, `null` or
/// `false` means open).
pub open spec fn downloadable(m: HfApiModel, authenticated: bool) -> bool {
    if m.disabled {
        false
    } else if m.private && !authenticated {
        false
    } else {
        match m.gated {
            None => true,
            Some(GatedValue::Bool(false)) => true,
            Some(GatedValue::Null) => true,
            _ => authenticated,
        }
    }
}

/// May this repository be downloaded with or without a token?
pub fn is_hf_downloadable(model: &HfApiModel, authenticated: bool) -> (r: bool)
    ensures
        r == downloadable(*model, authenticated),
{
    if model.disabled {
        return false;
    }
    if model.private && !authenticated {
        return false;
    }
    match &model.gated {
        None => true,
        Some(GatedValue::Bool(false)) => true,
        Some(GatedValue::Null) => true,
        _ => authenticated,
    }
}

/// Tags that mark embedding and conversion repositories.
pub open spec fn blocked_tags() -> Seq<Seq<char>> {
    seq!["sentence-transformers"@, "bert"@, "feature-extraction"@, "onnx"@, "openvino"@, "reranker"@]
}

/// A repository worth featuring: not a moved or embedding repository, and
/// none of its tags (lowercased) is a blocked one.
pub open spec fn featured_candidate(m: HfApiModel) -> bool {
    let id = unicode_lowercase(m.model_id@);
    &&& !contains_seq(id, "models-moved"@)
    &&& !contains_seq(id, "embed"@)
    &&& !contains_seq(id, "embedding"@)
    &&& forall|i: int| 0 <= i < m.tags@.len() ==> !blocked_tags().contains(
        unicode_lowercase(#[trigger] m.tags@[i]@),
    )
}

/// Embedding and encoder repositories are never featured: a repository with
/// a tag that lowercases to `sentence-transformers`, `bert`,
/// `feature-extraction`, `onnx`, `openvino` or `reranker`, or whose id
/// lowercased mentions `embed` or `models-moved`, is not a candidate.
pub proof fn lemma_embedding_repos_not_featured(m: HfApiModel, i: int)
    ensures
        0 <= i < m.tags@.len() && ({
            let low = unicode_lowercase(m.tags@[i]@);
            ||| low == "sentence-transformers"@
            ||| low == "bert"@
            ||| low == "feature-extraction"@
            ||| low == "onnx"@
            ||| low == "openvino"@
            ||| low == "reranker"@
        }) ==> !featured_candidate(m),
        contains_seq(unicode_lowercase(m.model_id@), "embed"@) ==> !featured_candidate(m),
        contains_seq(unicode_lowercase(m.model_id@), "models-moved"@) ==> !featured_candidate(m),
{
    if 0 <= i < m.tags@.len() {
        let low = unicode_lowercase(m.tags@[i]@);
        let b = blocked_tags();
        assert(b[0] == "sentence-transformers"@ && b[1] == "bert"@ && b[2] == "feature-extraction"@ && b[3]
            == "onnx"@ && b[4] == "openvino"@ && b[5] == "reranker"@);
        if low == "sentence-transformers"@ {
            assert(b.contains(low));
        } else if low == "bert"@ {
            assert(b.contains(low));
        } else if low == "feature-extraction"@ {
            assert(b.contains(low));
        } else if low == "onnx"@ {
            assert(b.contains(low));
        } else if low == "openvino"@ {
            assert(b.contains(low));
        } else if low == "reranker"@ {
            assert(b.contains(low));
        }
    }
}

/// Any other repository is featured: one whose id, lowercased, mentions
/// neither `embed` nor `models-moved`, and none of whose tags lowercases to
/// `sentence-transformers`, `bert`, `feature-extraction`, `onnx`,
/// `openvino` or `reranker`.
pub proof fn lemma_other_repos_featured(m: HfApiModel)
    ensures
        !contains_seq(unicode_lowercase(m.model_id@), "embed"@) && !contains_seq(
            unicode_lowercase(m.model_id@),
            "models-moved"@,
        ) && (forall|i: int|
            0 <= i < m.tags@.len() ==> {
                let low = unicode_lowercase(#[trigger] m.tags@[i]@);
                &&& low != "sentence-transformers"@
                &&& low != "bert"@
                &&& low != "feature-extraction"@
                &&& low != "onnx"@
                &&& low != "openvino"@
                &&& low != "reranker"@
            }) ==> featured_candidate(m),
{
    let id = unicode_lowercase(m.model_id@);
    if !contains_seq(id, "embed"@) && !contains_seq(id, "models-moved"@) && (forall|i: int|
        0 <= i < m.tags@.len() ==> {
            let low = unicode_lowercase(#[trigger] m.tags@[i]@);
            &&& low != "sentence-transformers"@
            &&& low != "bert"@
            &&& low != "feature-extraction"@
            &&& low != "onnx"@
            &&& low != "openvino"@
            &&& low != "reranker"@
        }) {
        reveal_strlit("embed");
        reveal_strlit("embedding");
        assert(!contains_seq(id, "embedding"@)) by {
            if contains_seq(id, "embedding"@) {
                let k = choose|k: int| crate::text::occurs_at(id, "embedding"@, k);
                assert(id.subrange(k, k + 5) =~= "embed"@);
                assert(crate::text::occurs_at(id, "embed"@, k));
            }
        }
        let b = blocked_tags();
        assert forall|i: int| 0 <= i < m.tags@.len() implies !b.contains(unicode_lowercase(#[trigger] m.tags@[i]@)) by {
            let low = unicode_lowercase(m.tags@[i]@);
            if b.contains(low) {
                let j = choose|j: int| 0 <= j < b.len() && b[j] == low;
                assert(0 <= j < 6);
            }
        }
    }
}

fn in_list(s: &[char], list: &Vec<Vec<char>>, Ghost(spec_list): Ghost<Seq<Seq<char>>>) -> (b: bool)
    requires
        list@.map_values(|p: Vec<char>| p@) == spec_list,
    ensures
        b == spec_list.contains(s@),
{
    let mut i: usize = 0;
    while i < list.len()
        invariant
            i <= list.len(),
            list@.map_values(|p: Vec<char>| p@) == spec_list,
            forall|j: int| 0 <= j < i ==> spec_list[j] != s@,
        decreases list.len() - i,
    {
        assert(spec_list[i as int] == list@[i as int]@);
        if chars_equal(s, &list[i]) {
            return true;
        }
        i += 1;
    }
    false
}

/// Should this repository be shown among featured models?
pub fn is_hf_featured_candidate(model: &HfApiModel) -> (r: bool)
    ensures
        r == featured_candidate(*model),
{
    let id = chars_of(&to_lowercase(model.model_id.as_str()));
    if contains_chars(&id, &chars_of("models-moved")) || contains_chars(&id, &chars_of("embed"))
        || contains_chars(&id, &chars_of("embedding")) {
        return false;
    }
    let blocked = vec![
        chars_of("sentence-transformers"),
        chars_of("bert"),
        chars_of("feature-extraction"),
        chars_of("onnx"),
        chars_of("openvino"),
        chars_of("reranker"),
    ];
    assert(blocked@.map_values(|p: Vec<char>| p@) =~= blocked_tags());
    let mut i: usize = 0;
    while i < model.tags.len()
        invariant
            i <= model.tags.len(),
            blocked@.map_values(|p: Vec<char>| p@) == blocked_tags(),
            forall|j: int| 0 <= j < i ==> !blocked_tags().contains(
                unicode_lowercase(#[trigger] model.tags@[j]@),
            ),
        decreases model.tags.len() - i,
    {
        let lowered = chars_of(&to_lowercase(model.tags[i].as_str()));
        if in_list(&lowered, &blocked, Ghost(blocked_tags())) {
            return false;
        }
        i += 1;
    }
    true
}

/// Pipeline tags of image-understanding models.
pub open spec fn vision_pipelines() -> Seq<Seq<char>> {
    seq!["image-text-to-text"@, "image-to-text"@, "visual-question-answering"@]
}

/// Tags of image-understanding models.
pub open spec fn vision_tags() -> Seq<Seq<char>> {
    seq!["vision"@, "multimodal"@, "image-text-to-text"@, "image-to-text"@]
}

/// A repository understands images: by its pipeline tag, or by one of its
/// tags (both compared lowercased).
pub open spec fn supports_vision(m: HfApiModel) -> bool {
    let pipeline = match m.pipeline_tag {
        Some(p) => unicode_lowercase(p@),
        None => unicode_lowercase(Seq::<char>::empty()),
    };
    vision_pipelines().contains(pipeline) || exists|i: int|
        0 <= i < m.tags@.len() && vision_tags().contains(unicode_lowercase(#[trigger] m.tags@[i]@))
}

/// Does this repository's model understand images?
pub fn hf_supports_vision(model: &HfApiModel) -> (r: bool)
    ensures
        r == supports_vision(*model),
{
    let pipeline = match &model.pipeline_tag {
        Some(p) => chars_of(&to_lowercase(p.as_str())),
        None => chars_of(&to_lowercase("")),
    };
    proof {
        reveal_strlit("");
        assert(""@ =~= Seq::<char>::empty());
    }
    let pipelines = vec![
        chars_of("image-text-to-text"),
        chars_of("image-to-text"),
        chars_of("visual-question-answering"),
    ];
    assert(pipelines@.map_values(|p: Vec<char>| p@) =~= vision_pipelines());
    if in_list(&pipeline, &pipelines, Ghost(vision_pipelines())) {
        return true;
    }
    let tags = vec![
        chars_of("vision"),
        chars_of("multimodal"),
        chars_of("image-text-to-text"),
        chars_of("image-to-text"),
    ];
    assert(tags@.map_values(|p: Vec<char>| p@) =~= vision_tags());
    let mut i: usize = 0;
    while i < model.tags.len()
        invariant
            i <= model.tags.len(),
            tags@.map_values(|p: Vec<char>| p@) == vision_tags(),
            forall|j: int| 0 <= j < i ==> !vision_tags().contains(
                unicode_lowercase(#[trigger] model.tags@[j]@),
            ),
        decreases model.tags.len() - i,
    {
        let lowered = chars_of(&to_lowercase(model.tags[i].as_str()));
        if in_list(&lowered, &tags, Ghost(vision_tags())) {
            assert(vision_tags().contains(unicode_lowercase(model.tags@[i as int]@)));
            return true;
        }
        i += 1;
    }
    false
}

// ---------------------------------------------------------------------------
// The browser card of a repository
// ---------------------------------------------------------------------------

/// One downloadable quantisation of a repository.
#[derive(Clone, Debug)]
pub struct HubQuant {
    pub quant: String,
    pub size_bytes: Option<u64>,
    pub url: String,
    pub filename: String,
}

pub ghost struct QuantModel {
    pub quant: Seq<char>,
    pub size_bytes: Option<u64>,
    pub url: Seq<char>,
    pub filename: Seq<char>,
}

impl View for HubQuant {
    type V = QuantModel;

    open spec fn view(&self) -> QuantModel {
        QuantModel {
            quant: self.quant@,
            size_bytes: self.size_bytes,
            url: self.url@,
            filename: self.filename@,
        }
    }
}

/// A repository as the model browser shows it.
#[derive(Clone, Debug)]
pub struct HubModel {
    pub id: String,
    pub name: String,
    pub family: String,
    pub author: Option<String>,
    pub params: String,
    pub description: String,
    pub hf_url: String,
    pub readme: Option<String>,
    pub license: Option<String>,
    pub base_model: Option<String>,
    pub pipeline_tag: Option<String>,
    pub library_name: Option<String>,
    pub tags: Vec<String>,
    pub supports_vision: bool,
    pub downloads: u64,
    pub likes: u64,
    pub created_at: Option<String>,
    pub last_modified: Option<String>,
    pub gguf_total: Option<u64>,
    pub gguf_architecture: Option<String>,
    pub gguf_context_length: Option<u64>,
    pub quants: Vec<HubQuant>,
}

pub open spec fn quants_view(v: Seq<HubQuant>) -> Seq<QuantModel> {
    v.map_values(|q: HubQuant| q@)
}

/// A model weight file: a `.gguf` that is not a vision projector.
pub open spec fn weight_file(name: Seq<char>) -> bool {
    let lower = unicode_lowercase(name);
    &&& ends_with(lower, ".gguf"@)
    &&& !starts_with(lower, "mmproj"@)
    &&& !contains_seq(lower, "/mmproj"@)
}

pub open spec fn resolve_url(id: Seq<char>, filename: Seq<char>) -> Seq<char> {
    "https://huggingface.co/"@ + id + "/resolve/main/"@ + filename
}

pub open spec fn quant_of(id: Seq<char>, f: HfSibling) -> QuantModel {
    QuantModel {
        quant: quant_label(f.rfilename@),
        size_bytes: sibling_size(f),
        url: resolve_url(id, f.rfilename@),
        filename: f.rfilename@,
    }
}

/// The quantisations of the weight files, in the repository's order.
pub open spec fn weight_quants(id: Seq<char>, sibs: Seq<HfSibling>) -> Seq<QuantModel>
    decreases sibs.len(),
{
    if sibs.len() == 0 {
        seq![]
    } else {
        let prev = weight_quants(id, sibs.drop_last());
        if weight_file(sibs.last().rfilename@) {
            prev.push(quant_of(id, sibs.last()))
        } else {
            prev
        }
    }
}

/// Sort key: the size, unknown sizes last.
pub open spec fn size_key(q: QuantModel) -> u64 {
    match q.size_bytes {
        Some(n) => n,
        None => u64::MAX,
    }
}

/// Where `q` goes in `s`: after the last element whose key is not larger.
pub open spec fn insert_pos(s: Seq<QuantModel>, q: QuantModel) -> int
    decreases s.len(),
{
    if s.len() == 0 {
        0
    } else if size_key(s.last()) <= size_key(q) {
        s.len() as int
    } else {
        insert_pos(s.drop_last(), q)
    }
}

/// Stable sort by size key: equal keys keep their order.
pub open spec fn sort_by_size(qs: Seq<QuantModel>) -> Seq<QuantModel>
    decreases qs.len(),
{
    if qs.len() == 0 {
        qs
    } else {
        let s = sort_by_size(qs.drop_last());
        s.insert(insert_pos(s, qs.last()), qs.last())
    }
}

pub open spec fn sorted_by_size(s: Seq<QuantModel>) -> bool {
    forall|i: int, j: int| 0 <= i <= j < s.len() ==> size_key(#[trigger] s[i]) <= size_key(#[trigger] s[j])
}

proof fn lemma_insert_pos(s: Seq<QuantModel>, q: QuantModel)
    requires
        sorted_by_size(s),
    ensures
        0 <= insert_pos(s, q) <= s.len(),
        forall|i: int| 0 <= i < insert_pos(s, q) ==> size_key(#[trigger] s[i]) <= size_key(q),
        forall|i: int| insert_pos(s, q) <= i < s.len() ==> size_key(q) < size_key(#[trigger] s[i]),
    decreases s.len(),
{
    if s.len() > 0 {
        if size_key(s.last()) <= size_key(q) {
            assert forall|i: int| 0 <= i < s.len() implies size_key(#[trigger] s[i]) <= size_key(q) by {
                assert(size_key(s[i]) <= size_key(s[s.len() - 1]));
            }
        } else {
            let t = s.drop_last();
            lemma_insert_pos(t, q);
            assert forall|i: int| 0 <= i < insert_pos(s, q) implies size_key(#[trigger] s[i]) <= size_key(q) by {
                assert(s[i] == t[i]);
            }
            assert forall|i: int| insert_pos(s, q) <= i < s.len() implies size_key(q) < size_key(#[trigger] s[i]) by {
                if i < s.len() - 1 {
                    assert(s[i] == t[i]);
                }
            }
        }
    }
}

/// The quantisations come out ordered by size, unknown sizes last.
pub proof fn lemma_sort_by_size_sorted(qs: Seq<QuantModel>)
    ensures
        sorted_by_size(sort_by_size(qs)),
        sort_by_size(qs).len() == qs.len(),
    decreases qs.len(),
{
    if qs.len() > 0 {
        let s = sort_by_size(qs.drop_last());
        lemma_sort_by_size_sorted(qs.drop_last());
        lemma_insert_pos(s, qs.last());
        let p = insert_pos(s, qs.last());
        let r = s.insert(p, qs.last());
        assert forall|i: int, j: int| 0 <= i <= j < r.len() implies size_key(#[trigger] r[i]) <= size_key(
            #[trigger] r[j],
        ) by {
            if i < p && j < p {
            } else if i < p && j == p {
            } else if i < p {
                assert(r[j] == s[j - 1]);
            } else if i == p && j > p {
                assert(r[j] == s[j - 1]);
            } else if i > p {
                assert(r[i] == s[i - 1]);
                assert(r[j] == s[j - 1]);
            }
        }
    }
}

/// Tags kept on a card: non-empty after trimming, no `:` in them, not a
/// `base_model` tag, and shorter than 24 bytes.
pub open spec fn card_tag_kept(t: Seq<char>) -> bool {
    let tt = trim(t);
    &&& tt.len() > 0
    &&& !contains_seq(tt, ":"@)
    &&& !starts_with(tt, "base_model"@)
    &&& utf8_len(tt) < 24
}

/// The card's tags from `tags[i..]`, given those taken so far and their
/// lowercased forms: trimmed, first of each lowercase spelling only, at
/// most 12.
pub open spec fn collect_tags(tags: Seq<Seq<char>>, i: int, acc: Seq<Seq<char>>, seen: Seq<Seq<char>>) -> Seq<Seq<char>>
    decreases tags.len() - i,
{
    if i < 0 || i >= tags.len() {
        acc
    } else if !card_tag_kept(tags[i]) {
        collect_tags(tags, i + 1, acc, seen)
    } else {
        let tt = trim(tags[i]);
        let low = unicode_lowercase(tt);
        let acc2 = if seen.contains(low) { acc } else { acc.push(tt) };
        let seen2 = if seen.contains(low) { seen } else { seen.push(low) };
        if acc2.len() == 12 {
            acc2
        } else {
            collect_tags(tags, i + 1, acc2, seen2)
        }
    }
}

/// The tags on a card; a vision model gets a leading `vision` tag when none
/// of its tags is `vision` (in any ASCII case), still at most 12.
pub open spec fn card_tags(m: HfApiModel) -> Seq<Seq<char>> {
    let base = collect_tags(strings_view(m.tags@), 0, seq![], seq![]);
    if supports_vision(m) && !(exists|i: int|
        0 <= i < base.len() && eq_ignore_ascii_case(#[trigger] base[i], "vision"@)) {
        let with = seq!["vision"@] + base;
        if with.len() > 12 {
            with.take(12)
        } else {
            with
        }
    } else {
        base
    }
}

/// The tags a card collects: at most 12, none with a `:`, and no two alike
/// in lowercase.
proof fn lemma_collect_tags(tags: Seq<Seq<char>>, i: int, acc: Seq<Seq<char>>, seen: Seq<Seq<char>>)
    requires
        acc.len() < 12,
        seen.len() == acc.len(),
        forall|j: int| 0 <= j < acc.len() ==> !contains_seq(#[trigger] acc[j], ":"@),
        forall|j: int| 0 <= j < acc.len() ==> #[trigger] seen[j] == unicode_lowercase(acc[j]),
        forall|j: int, k: int| 0 <= j < k < seen.len() ==> seen[j] != seen[k],
    ensures
        collect_tags(tags, i, acc, seen).len() <= 12,
        forall|j: int|
            0 <= j < collect_tags(tags, i, acc, seen).len() ==> !contains_seq(
                #[trigger] collect_tags(tags, i, acc, seen)[j],
                ":"@,
            ),
        forall|j: int, k: int|
            0 <= j < k < collect_tags(tags, i, acc, seen).len() ==> unicode_lowercase(
                #[trigger] collect_tags(tags, i, acc, seen)[j],
            ) != unicode_lowercase(#[trigger] collect_tags(tags, i, acc, seen)[k]),
    decreases tags.len() - i,
{
    if i < 0 || i >= tags.len() {
        assert forall|j: int, k: int| 0 <= j < k < acc.len() implies unicode_lowercase(#[trigger] acc[j])
            != unicode_lowercase(#[trigger] acc[k]) by {
            assert(seen[j] == unicode_lowercase(acc[j]));
            assert(seen[k] == unicode_lowercase(acc[k]));
        }
    } else if !card_tag_kept(tags[i]) {
        lemma_collect_tags(tags, i + 1, acc, seen);
    } else {
        let tt = trim(tags[i]);
        let low = unicode_lowercase(tt);
        if seen.contains(low) {
            lemma_collect_tags(tags, i + 1, acc, seen);
        } else {
            let acc2 = acc.push(tt);
            let seen2 = seen.push(low);
            assert forall|j: int| 0 <= j < acc2.len() implies !contains_seq(#[trigger] acc2[j], ":"@) by {
                if j < acc.len() {
                    assert(acc2[j] == acc[j]);
                }
            }
            assert forall|j: int| 0 <= j < acc2.len() implies #[trigger] seen2[j] == unicode_lowercase(acc2[j]) by {
                if j < acc.len() {
                    assert(acc2[j] == acc[j]);
                    assert(seen2[j] == seen[j]);
                }
            }
            assert forall|j: int, k: int| 0 <= j < k < seen2.len() implies seen2[j] != seen2[k] by {
                if k == seen.len() {
                    assert(seen2[j] == seen[j]);
                    assert(seen.contains(seen[j]));
                } else {
                    assert(seen2[j] == seen[j]);
                    assert(seen2[k] == seen[k]);
                }
            }
            if acc2.len() < 12 {
                lemma_collect_tags(tags, i + 1, acc2, seen2);
            } else {
                assert forall|j: int, k: int| 0 <= j < k < acc2.len() implies unicode_lowercase(
                    #[trigger] acc2[j],
                ) != unicode_lowercase(#[trigger] acc2[k]) by {
                    assert(seen2[j] == unicode_lowercase(acc2[j]));
                    assert(seen2[k] == unicode_lowercase(acc2[k]));
                }
            }
        }
    }
}

/// A card carries at most 12 tags, none with a `:`; the tags it collects
/// from the repository are distinct ignoring case; and a vision model's
/// card has a `vision` tag (in some ASCII case).
pub proof fn lemma_card_tags(m: HfApiModel)
    ensures
        card_tags(m).len() <= 12,
        forall|j: int| 0 <= j < card_tags(m).len() ==> !contains_seq(#[trigger] card_tags(m)[j], ":"@),
        ({
            let base = collect_tags(strings_view(m.tags@), 0, seq![], seq![]);
            forall|j: int, k: int|
                0 <= j < k < base.len() ==> unicode_lowercase(#[trigger] base[j]) != unicode_lowercase(
                    #[trigger] base[k],
                )
        }),
        supports_vision(m) ==> exists|i: int|
            0 <= i < card_tags(m).len() && eq_ignore_ascii_case(#[trigger] card_tags(m)[i], "vision"@),
{
    let base = collect_tags(strings_view(m.tags@), 0, seq![], seq![]);
    lemma_collect_tags(strings_view(m.tags@), 0, seq![], seq![]);
    if supports_vision(m) && !(exists|i: int| 0 <= i < base.len() && eq_ignore_ascii_case(#[trigger] base[i], "vision"@)) {
        let with = seq!["vision"@] + base;
        let r = card_tags(m);
        assert(!contains_seq("vision"@, ":"@)) by {
            reveal_strlit("vision");
            reveal_strlit(":");
            assert forall|p: int| !crate::text::occurs_at("vision"@, ":"@, p) by {
                if 0 <= p && p + 1 <= 6 {
                    assert(":"@[0] == ':');
                    assert("vision"@[p] != ':');
                }
            }
        }
        assert forall|j: int| 0 <= j < r.len() implies !contains_seq(#[trigger] r[j], ":"@) by {
            assert(r[j] == with[j]);
            if j > 0 {
                assert(with[j] == base[j - 1]);
            }
        }
        assert(r[0] == "vision"@);
        assert(eq_ignore_ascii_case(r[0], "vision"@));
    }
}

/// The repository name shown on a card: the part after the owner, with `-`
/// and `_` as spaces.
pub open spec fn display_name(id: Seq<char>) -> Seq<char> {
    let parts = split_on(id, '/');
    let repo = if parts.len() >= 2 { parts[1] } else { id };
    replace_char(replace_char(repo, '-', ' '), '_', ' ')
}

pub open spec fn base_model_of(tags: Seq<Seq<char>>) -> Option<Seq<char>> {
    match tag_value_of(tags, "base_model:quantized:"@) {
        Some(v) => Some(v),
        None => match tag_value_of(tags, "base_model:adapter:"@) {
            Some(v) => Some(v),
            None => tag_value_of(tags, "base_model:"@),
        },
    }
}

pub open spec fn gguf_total_of(m: HfApiModel) -> Option<u64> {
    match m.gguf {
        Some(g) => g.total,
        None => None,
    }
}

pub open spec fn gguf_architecture_of(m: HfApiModel) -> Option<Seq<char>> {
    match m.gguf {
        Some(g) => opt_str_view(g.architecture),
        None => None,
    }
}

pub open spec fn gguf_context_of(m: HfApiModel) -> Option<u64> {
    match m.gguf {
        Some(g) => g.context_length,
        None => None,
    }
}

/// What the card of repository `m` shows.
pub open spec fn card_matches(h: HubModel, m: HfApiModel, readme: Option<Seq<char>>) -> bool {
    &&& h.id@ == m.model_id@
    &&& h.name@ == display_name(m.model_id@)
    &&& h.family@ == split_on(m.model_id@, '/')[0]
    &&& opt_str_view(h.author) == opt_str_view(m.author)
    &&& h.params@ == match gguf_total_of(m) {
        Some(t) => parameter_count_text(t as nat),
        None => Seq::<char>::empty(),
    }
    &&& h.description@ == group_thousands(decimal(m.downloads as nat)) + " downloads | "@ + m.model_id@
    &&& h.hf_url@ == "https://huggingface.co/"@ + m.model_id@
    &&& opt_str_view(h.readme) == readme
    &&& opt_str_view(h.license) == tag_value_of(strings_view(m.tags@), "license:"@)
    &&& opt_str_view(h.base_model) == base_model_of(strings_view(m.tags@))
    &&& opt_str_view(h.pipeline_tag) == opt_str_view(m.pipeline_tag)
    &&& opt_str_view(h.library_name) == opt_str_view(m.library_name)
    &&& strings_view(h.tags@) == card_tags(m)
    &&& h.supports_vision == supports_vision(m)
    &&& h.downloads == m.downloads
    &&& h.likes == m.likes
    &&& opt_str_view(h.created_at) == opt_str_view(m.created_at)
    &&& opt_str_view(h.last_modified) == opt_str_view(m.last_modified)
    &&& h.gguf_total == gguf_total_of(m)
    &&& opt_str_view(h.gguf_architecture) == gguf_architecture_of(m)
    &&& h.gguf_context_length == gguf_context_of(m)
    &&& quants_view(h.quants@) == sort_by_size(weight_quants(m.model_id@, m.siblings@))
}

fn concat3(a: &[char], b: &[char], c: &[char]) -> (r: Vec<char>)
    ensures
        r@ == a@ + b@ + c@,
{
    let mut r: Vec<char> = Vec::new();
    let mut i: usize = 0;
    while i < a.len()
        invariant
            i <= a.len(),
            r@ == a@.take(i as int),
        decreases a.len() - i,
    {
        r.push(a[i]);
        i += 1;
        assert(r@ =~= a@.take(i as int));
    }
    let mut j: usize = 0;
    while j < b.len()
        invariant
            j <= b.len(),
            i == a.len(),
            r@ == a@.take(i as int) + b@.take(j as int),
        decreases b.len() - j,
    {
        r.push(b[j]);
        j += 1;
        assert(r@ =~= a@.take(i as int) + b@.take(j as int));
    }
    let mut k: usize = 0;
    while k < c.len()
        invariant
            k <= c.len(),
            i == a.len(),
            j == b.len(),
            r@ == a@.take(i as int) + b@.take(j as int) + c@.take(k as int),
        decreases c.len() - k,
    {
        r.push(c[k]);
        k += 1;
        assert(r@ =~= a@.take(i as int) + b@.take(j as int) + c@.take(k as int));
    }
    assert(a@.take(i as int) =~= a@);
    assert(b@.take(j as int) =~= b@);
    assert(c@.take(k as int) =~= c@);
    r
}

fn is_weight_file(name: &str) -> (b: bool)
    ensures
        b == weight_file(name@),
{
    let lower = chars_of(&to_lowercase(name));
    ends_with_chars(&lower, &chars_of(".gguf")) && !starts_with_chars(&lower, &chars_of("mmproj"))
        && !contains_chars(&lower, &chars_of("/mmproj"))
}

fn quant_key(q: &HubQuant) -> (k: u64)
    ensures
        k == size_key(q@),
{
    match q.size_bytes {
        Some(n) => n,
        None => u64::MAX,
    }
}

fn insert_by_size(v: &mut Vec<HubQuant>, q: HubQuant)
    ensures
        quants_view(final(v)@) == quants_view(old(v)@).insert(
            insert_pos(quants_view(old(v)@), q@),
            q@,
        ),
{
    let ghost s = quants_view(v@);
    let key = quant_key(&q);
    let mut j: usize = v.len();
    assert(s.take(j as int) =~= s);
    while j > 0 && quant_key(&v[j - 1]) > key
        invariant
            j <= v.len(),
            s == quants_view(v@),
            key == size_key(q@),
            insert_pos(s, q@) == insert_pos(s.take(j as int), q@),
        decreases j,
    {
        assert(s.take(j as int).last() == v@[j - 1]@);
        assert(s.take(j as int).drop_last() =~= s.take(j - 1));
        j -= 1;
    }
    if j > 0 {
        assert(s.take(j as int).last() == v@[j - 1]@);
    }
    v.insert(j, q);
    assert(quants_view(v@) =~= s.insert(j as int, q@));
}

fn utf8_len_below(v: &[char], n: usize) -> (b: bool)
    requires
        0 < n <= 1000,
    ensures
        b == (utf8_len(v@) < n),
{
    let mut sum: usize = 0;
    let mut i: usize = 0;
    proof {
        assert(v@.take(0) =~= Seq::<char>::empty());
        assert(vstd::utf8::encode_utf8(Seq::<char>::empty()) =~= Seq::<u8>::empty());
    }
    while i < v.len()
        invariant
            i <= v.len(),
            n <= 1000,
            sum == utf8_len(v@.take(i as int)),
            sum < n,
        decreases v.len() - i,
    {
        proof {
            assert(v@.take(i + 1) =~= v@.take(i as int).push(v@[i as int]));
            crate::text::lemma_utf8_len_push(v@.take(i as int), v@[i as int]);
        }
        sum = sum + crate::text::char_utf8_len_exec(v[i]);
        i += 1;
        if sum >= n {
            proof {
                crate::text::lemma_utf8_len_split(v@, i as int);
            }
            return false;
        }
    }
    assert(v@.take(i as int) =~= v@);
    true
}

fn collect_card_tags(tags: &Vec<String>) -> (r: Vec<String>)
    ensures
        strings_view(r@) == collect_tags(strings_view(tags@), 0, seq![], seq![]),
{
    let ghost views = strings_view(tags@);
    let mut acc: Vec<String> = Vec::new();
    let mut seen: Vec<Vec<char>> = Vec::new();
    let mut i: usize = 0;
    assert(strings_view(acc@) =~= Seq::<Seq<char>>::empty());
    assert(seen@.map_values(|p: Vec<char>| p@) =~= Seq::<Seq<char>>::empty());
    while i < tags.len()
        invariant
            i <= tags.len(),
            views == strings_view(tags@),
            acc@.len() < 12,
            collect_tags(views, 0, seq![], seq![]) == collect_tags(
                views,
                i as int,
                strings_view(acc@),
                seen@.map_values(|p: Vec<char>| p@),
            ),
        decreases tags.len() - i,
    {
        let t = chars_of(tags[i].as_str());
        assert(views[i as int] == t@);
        let tt = trim_chars(&t);
        let kept = tt.len() > 0 && !contains_chars(&tt, &chars_of(":"))
            && !starts_with_chars(&tt, &chars_of("base_model")) && utf8_len_below(&tt, 24);
        if kept {
            let low = chars_of(&to_lowercase(string_of(&tt).as_str()));
            let ghost seen_view = seen@.map_values(|p: Vec<char>| p@);
            let already = in_list(&low, &seen, Ghost(seen_view));
            if !already {
                let ghost acc_before = strings_view(acc@);
                acc.push(string_of(&tt));
                seen.push(low);
                assert(strings_view(acc@) =~= acc_before.push(tt@));
                assert(seen@.map_values(|p: Vec<char>| p@) =~= seen_view.push(unicode_lowercase(tt@)));
            }
            if acc.len() == 12 {
                i += 1;
                return acc;
            }
        }
        i += 1;
    }
    acc
}

fn weight_quants_exec(id: &str, sibs: &Vec<HfSibling>) -> (r: Vec<HubQuant>)
    ensures
        quants_view(r@) == weight_quants(id@, sibs@),
{
    let mut r: Vec<HubQuant> = Vec::new();
    let mut i: usize = 0;
    let idc = chars_of(id);
    assert(sibs@.take(0) =~= Seq::<HfSibling>::empty());
    assert(quants_view(r@) =~= Seq::<QuantModel>::empty());
    while i < sibs.len()
        invariant
            i <= sibs.len(),
            idc@ == id@,
            quants_view(r@) == weight_quants(id@, sibs@.take(i as int)),
        decreases sibs.len() - i,
    {
        let f = &sibs[i];
        assert(sibs@.take(i + 1).drop_last() =~= sibs@.take(i as int));
        assert(sibs@.take(i + 1).last() == *f);
        if is_weight_file(f.rfilename.as_str()) {
            let fname = chars_of(f.rfilename.as_str());
            let url = concat3(&concat3(&chars_of("https://huggingface.co/"), &idc, &chars_of("/resolve/main/")), &fname, &[]);
            let q = HubQuant {
                quant: extract_quant(f.rfilename.as_str()),
                size_bytes: file_size_bytes(f),
                url: string_of(&url),
                filename: f.rfilename.clone(),
            };
            assert(q@.url =~= resolve_url(id@, f.rfilename@));
            let ghost before = quants_view(r@);
            r.push(q);
            assert(quants_view(r@) =~= before.push(quant_of(id@, *f)));
        }
        i += 1;
    }
    assert(sibs@.take(i as int) =~= sibs@);
    r
}

fn sort_quants(v: Vec<HubQuant>) -> (r: Vec<HubQuant>)
    ensures
        quants_view(r@) == sort_by_size(quants_view(v@)),
{
    let ghost qs = quants_view(v@);
    let mut r: Vec<HubQuant> = Vec::new();
    let mut i: usize = 0;
    assert(qs.take(0) =~= Seq::<QuantModel>::empty());
    assert(quants_view(r@) =~= Seq::<QuantModel>::empty());
    while i < v.len()
        invariant
            i <= v.len(),
            qs == quants_view(v@),
            quants_view(r@) == sort_by_size(qs.take(i as int)),
        decreases v.len() - i,
    {
        assert(qs.take(i + 1).drop_last() =~= qs.take(i as int));
        assert(qs.take(i + 1).last() == v@[i as int]@);
        insert_by_size(&mut r, v[i].clone_quant());
        i += 1;
    }
    assert(qs.take(i as int) =~= qs);
    r
}

impl HubQuant {
    /// A copy of this quantisation entry.
    pub fn clone_quant(&self) -> (r: HubQuant)
        ensures
            r@ == self@,
    {
        HubQuant {
            quant: self.quant.clone(),
            size_bytes: self.size_bytes,
            url: self.url.clone(),
            filename: self.filename.clone(),
        }
    }
}

fn card_tags_exec(m: &HfApiModel) -> (r: Vec<String>)
    ensures
        strings_view(r@) == card_tags(*m),
{
    let base = collect_card_tags(&m.tags);
    let ghost bv = strings_view(base@);
    if !hf_supports_vision(m) {
        return base;
    }
    let vision = chars_of("vision");
    let mut i: usize = 0;
    while i < base.len()
        invariant
            i <= base.len(),
            bv == strings_view(base@),
            bv == collect_tags(strings_view(m.tags@), 0, seq![], seq![]),
            supports_vision(*m),
            vision@ == "vision"@,
            forall|j: int| 0 <= j < i ==> !eq_ignore_ascii_case(#[trigger] bv[j], "vision"@),
        decreases base.len() - i,
    {
        let t = chars_of(base[i].as_str());
        assert(bv[i as int] == t@);
        if chars_equal(&ascii_lower_chars(&t), &ascii_lower_chars(&vision)) {
            assert(eq_ignore_ascii_case(bv[i as int], "vision"@));
            return base;
        }
        i += 1;
    }
    assert(!(exists|j: int| 0 <= j < bv.len() && eq_ignore_ascii_case(#[trigger] bv[j], "vision"@)));
    let mut with: Vec<String> = Vec::new();
    with.push("vision".to_string());
    assert(strings_view(with@) =~= (seq!["vision"@] + bv).take(1));
    let mut k: usize = 0;
    while k < base.len() && with.len() < 12
        invariant
            k <= base.len(),
            with@.len() == k + 1,
            with@.len() <= 12,
            bv == strings_view(base@),
            bv == collect_tags(strings_view(m.tags@), 0, seq![], seq![]),
            supports_vision(*m),
            !(exists|j: int| 0 <= j < bv.len() && eq_ignore_ascii_case(#[trigger] bv[j], "vision"@)),
            strings_view(with@) == (seq!["vision"@] + bv).take(k + 1),
        decreases base.len() - k,
    {
        with.push(base[k].clone());
        k += 1;
        assert(strings_view(with@) =~= (seq!["vision"@] + bv).take(k + 1));
    }
    let ghost whole = seq!["vision"@] + bv;
    if k < base.len() {
        assert(whole.len() > 12);
    } else {
        assert(whole.take(k + 1) =~= whole);
    }
    assert(strings_view(with@) =~= card_tags(*m));
    with
}

fn display_name_exec(id: &str) -> (r: String)
    ensures
        r@ == display_name(id@),
{
    let idc = chars_of(id);
    let parts = split_chars(&idc, '/');
    let ghost pv = parts@.map_values(|p: Vec<char>| p@);
    let repo = if parts.len() >= 2 {
        assert(pv[1] == parts@[1]@);
        slice_chars(&parts[1], 0, parts[1].len())
    } else {
        idc
    };
    let mut out: Vec<char> = Vec::new();
    let mut i: usize = 0;
    while i < repo.len()
        invariant
            i <= repo.len(),
            out@ == replace_char(replace_char(repo@, '-', ' '), '_', ' ').take(i as int),
        decreases repo.len() - i,
    {
        let c = repo[i];
        out.push(if c == '-' || c == '_' { ' ' } else { c });
        i += 1;
        assert(out@ =~= replace_char(replace_char(repo@, '-', ' '), '_', ' ').take(i as int));
    }
    assert(replace_char(replace_char(repo@, '-', ' '), '_', ' ').take(i as int) =~= replace_char(
        replace_char(repo@, '-', ' '),
        '_',
        ' ',
    ));
    string_of(&out)
}

fn base_model_exec(tags: &[String]) -> (r: Option<String>)
    ensures
        opt_str_view(r) == base_model_of(strings_view(tags@)),
{
    match tag_value(tags, "base_model:quantized:") {
        Some(v) => Some(v),
        None => match tag_value(tags, "base_model:adapter:") {
            Some(v) => Some(v),
            None => tag_value(tags, "base_model:"),
        },
    }
}

/// The browser card of a repository, or `None` when it may not be
/// downloaded or has no model weight file.
pub fn hf_api_to_hub(m: HfApiModel, authenticated: bool, readme: Option<String>) -> (r: Option<HubModel>)
    ensures
        r is Some <==> downloadable(m, authenticated) && weight_quants(m.model_id@, m.siblings@).len() > 0,
        r matches Some(h) ==> card_matches(h, m, opt_str_view(readme)),
{
    if !is_hf_downloadable(&m, authenticated) {
        return None;
    }
    let files = weight_quants_exec(m.model_id.as_str(), &m.siblings);
    if files.len() == 0 {
        return None;
    }
    let quants = sort_quants(files);
    let idc = chars_of(m.model_id.as_str());
    let parts = split_chars(&idc, '/');
    proof {
        lemma_split_on_len(m.model_id@, '/');
    }
    let family = string_of(&parts[0]);
    assert(family@ == split_on(m.model_id@, '/')[0]);
    let name = display_name_exec(m.model_id.as_str());
    let vision = hf_supports_vision(&m);
    let license = tag_value(&m.tags, "license:");
    let base_model = base_model_exec(&m.tags);
    let (gguf_total, gguf_architecture, gguf_context_length) = match &m.gguf {
        Some(g) => (g.total, clone_opt_string(&g.architecture), g.context_length),
        None => (None, None, None),
    };
    let params = match gguf_total {
        Some(t) => format_parameter_count(t),
        None => String::new(),
    };
    let tags = card_tags_exec(&m);
    let downloads_text = chars_of(&format_downloads(m.downloads));
    let description = concat3(&downloads_text, &chars_of(" downloads | "), &idc);
    let hf_url = concat3(&chars_of("https://huggingface.co/"), &idc, &[]);
    assert(hf_url@ =~= "https://huggingface.co/"@ + m.model_id@);
    let h = HubModel {
        id: m.model_id.clone(),
        name,
        family,
        author: clone_opt_string(&m.author),
        params,
        description: string_of(&description),
        hf_url: string_of(&hf_url),
        readme,
        license,
        base_model,
        pipeline_tag: clone_opt_string(&m.pipeline_tag),
        library_name: clone_opt_string(&m.library_name),
        tags,
        supports_vision: vision,
        downloads: m.downloads,
        likes: m.likes,
        created_at: clone_opt_string(&m.created_at),
        last_modified: clone_opt_string(&m.last_modified),
        gguf_total,
        gguf_architecture,
        gguf_context_length,
        quants,
    };
    Some(h)
}

// ---------------------------------------------------------------------------
// Matching local files to repositories
// ---------------------------------------------------------------------------

/// Lowercased file name of a path, or the whole path lowercased when it has
/// no file name.
pub fn basename_lower(path: &str) -> (r: String)
    ensures
        r@ == unicode_lowercase(path@) || exists|n: Seq<char>|
            n.len() > 0 && contains_seq(path@, n) && (!verbatim_prefixed(path@) ==> !n.contains('/'))
                && r@ == unicode_lowercase(n),
        forall|n: Seq<char>| #[trigger] plain_file_name(path@, n) ==> r@ == unicode_lowercase(n),
{
    proof {
        assert forall|n: Seq<char>| #[trigger] plain_file_name(path@, n) implies plain_name_of(path@) == Some(n) by {
            lemma_plain_name_of(path@, n);
        }
    }
    match path_file_name(path) {
        Some(n) => {
            let r = to_lowercase(n.as_str());
            assert(n@.len() > 0 && contains_seq(path@, n@) && (!verbatim_prefixed(path@) ==> !n@.contains('/'))
                && r@ == unicode_lowercase(n@));
            r
        },
        None => to_lowercase(path),
    }
}

/// Does a plainly written name of this file lowercase to
/// `chat_template.jinja`?
pub open spec fn plainly_template(path: Seq<char>) -> bool {
    exists|n: Seq<char>| #[trigger] plain_file_name(path, n) && unicode_lowercase(n) == "chat_template.jinja"@
}

/// The first repository file whose name (lowercased, in any folder) is
/// `chat_template.jinja`, if the repository has one. Found whenever some
/// file is plainly written with that name (see `plain_file_name`); the one
/// returned comes before every other such file.
pub fn find_repo_chat_template_path(model: &HfApiModel) -> (r: Option<String>)
    ensures
        r matches Some(p) ==> exists|i: int|
            0 <= i < model.siblings@.len() && (#[trigger] model.siblings@[i]).rfilename@ == p@
                && forall|j: int| 0 <= j < i ==> !plainly_template(model.siblings@[j].rfilename@),
        (exists|i: int| 0 <= i < model.siblings@.len() && plainly_template(#[trigger] model.siblings@[i].rfilename@))
            ==> r is Some,
{
    let target = chars_of("chat_template.jinja");
    let mut i: usize = 0;
    while i < model.siblings.len()
        invariant
            i <= model.siblings.len(),
            target@ == "chat_template.jinja"@,
            forall|j: int| 0 <= j < i ==> !plainly_template(#[trigger] model.siblings@[j].rfilename@),
        decreases model.siblings.len() - i,
    {
        let low = basename_lower(model.siblings[i].rfilename.as_str());
        let name = chars_of(&low);
        if chars_equal(&name, &target) {
            let r = model.siblings[i].rfilename.clone();
            assert(model.siblings@[i as int].rfilename@ == r@);
            return Some(r);
        }
        assert(!plainly_template(model.siblings@[i as int].rfilename@)) by {
            if plainly_template(model.siblings@[i as int].rfilename@) {
                let n = choose|n: Seq<char>| #[trigger] plain_file_name(model.siblings@[i as int].rfilename@, n)
                    && unicode_lowercase(n) == "chat_template.jinja"@;
                assert(low@ == unicode_lowercase(n));
            }
        }
        i += 1;
    }
    None
}

/// One search query candidate: trimmed of white space and of `-` at both
/// ends, kept when at least 4 bytes long and not yet seen in any case.
pub open spec fn push_unique(qs: Seq<Seq<char>>, seen: Seq<Seq<char>>, v: Seq<char>) -> (Seq<Seq<char>>, Seq<Seq<char>>) {
    let t = trim_char(trim(v), '-');
    let low = unicode_lowercase(t);
    if utf8_len(t) >= 4 && !seen.contains(low) {
        (qs.push(t), seen.push(low))
    } else {
        (qs, seen)
    }
}

/// Add `value` to the queries unless it is too short or already there.
pub fn push_unique_query(queries: &mut Vec<String>, seen: &mut Vec<String>, value: &str)
    ensures
        (strings_view(final(queries)@), strings_view(final(seen)@)) == push_unique(
            strings_view(old(queries)@),
            strings_view(old(seen)@),
            value@,
        ),
{
    let t = trim_char_chars(&crate::text::trim_str(value), '-');
    let long_enough = !utf8_len_below(&t, 4);
    if !long_enough {
        return;
    }
    let low = to_lowercase(string_of(&t).as_str());
    let lowc = chars_of(low.as_str());
    let ghost sv = strings_view(seen@);
    let mut i: usize = 0;
    while i < seen.len()
        invariant
            i <= seen.len(),
            sv == strings_view(seen@),
            lowc@ == low@,
            low@ == unicode_lowercase(t@),
            t@ == trim_char(trim(value@), '-'),
            utf8_len(t@) >= 4,
            queries@ == old(queries)@,
            seen@ == old(seen)@,
            forall|j: int| 0 <= j < i ==> sv[j] != low@,
        decreases seen.len() - i,
    {
        let si = chars_of(seen[i].as_str());
        assert(sv[i as int] == si@);
        if chars_equal(&si, &lowc) {
            assert(sv.contains(low@));
            return;
        }
        i += 1;
    }
    let ghost qv = strings_view(queries@);
    queries.push(string_of(&t));
    seen.push(low);
    assert(strings_view(queries@) =~= qv.push(t@));
    assert(strings_view(seen@) =~= sv.push(low@));
}

/// The non-empty pieces of a list.
pub open spec fn drop_empty(v: Seq<Seq<char>>) -> Seq<Seq<char>>
    decreases v.len(),
{
    if v.len() == 0 {
        v
    } else {
        let p = drop_empty(v.drop_last());
        if v.last().len() > 0 {
            p.push(v.last())
        } else {
            p
        }
    }
}

/// Shorter and shorter prefixes of the `-` pieces, while at least three
/// pieces are left and fewer than six queries were found.
pub open spec fn shorten_queries(parts: Seq<Seq<char>>, qs: Seq<Seq<char>>, seen: Seq<Seq<char>>) -> Seq<Seq<char>>
    decreases parts.len(),
{
    if parts.len() >= 3 && qs.len() < 6 {
        let p2 = parts.drop_last();
        let next = push_unique(qs, seen, join_with(p2, "-"@));
        shorten_queries(p2, next.0, next.1)
    } else {
        qs
    }
}

/// Search queries for a GGUF file stem: the stem, the stem with `_` as `-`,
/// then that form with trailing `-` pieces dropped one by one.
pub open spec fn sync_queries(stem: Seq<char>) -> Seq<Seq<char>> {
    let norm = replace_char(stem, '_', '-');
    let first = push_unique(seq![], seq![], stem);
    let second = push_unique(first.0, first.1, norm);
    shorten_queries(drop_empty(split_on(norm, '-')), second.0, second.1)
}

/// `seen` holds the lowercased form of each query, and no form twice;
/// every query is at least four bytes long.
pub open spec fn tracks_queries(qs: Seq<Seq<char>>, seen: Seq<Seq<char>>) -> bool {
    &&& qs.len() == seen.len()
    &&& forall|i: int| 0 <= i < qs.len() ==> seen[i] == unicode_lowercase(#[trigger] qs[i])
    &&& forall|i: int, j: int| 0 <= i < j < seen.len() ==> seen[i] != seen[j]
    &&& forall|i: int| 0 <= i < qs.len() ==> utf8_len(#[trigger] qs[i]) >= 4
}

proof fn lemma_push_unique_tracks(qs: Seq<Seq<char>>, seen: Seq<Seq<char>>, v: Seq<char>)
    requires
        tracks_queries(qs, seen),
    ensures
        tracks_queries(push_unique(qs, seen, v).0, push_unique(qs, seen, v).1),
        push_unique(qs, seen, v).0.len() <= qs.len() + 1,
{
    let t = trim_char(trim(v), '-');
    let low = unicode_lowercase(t);
    if utf8_len(t) >= 4 && !seen.contains(low) {
        let q2 = qs.push(t);
        let s2 = seen.push(low);
        assert forall|i: int, j: int| 0 <= i < j < s2.len() implies s2[i] != s2[j] by {
            if j == seen.len() {
                assert(s2[i] == seen[i]);
                assert(seen.contains(seen[i]));
            }
        }
        assert forall|i: int| 0 <= i < q2.len() implies s2[i] == unicode_lowercase(#[trigger] q2[i]) by {
            if i < qs.len() {
                assert(q2[i] == qs[i]);
            }
        }
        assert forall|i: int| 0 <= i < q2.len() implies utf8_len(#[trigger] q2[i]) >= 4 by {
            if i < qs.len() {
                assert(q2[i] == qs[i]);
            }
        }
    }
}

proof fn lemma_shorten_tracks(parts: Seq<Seq<char>>, qs: Seq<Seq<char>>, seen: Seq<Seq<char>>)
    requires
        tracks_queries(qs, seen),
    ensures
        exists|s2: Seq<Seq<char>>| tracks_queries(shorten_queries(parts, qs, seen), s2),
        shorten_queries(parts, qs, seen).len() <= (if qs.len() > 6 { qs.len() as int } else { 6 }),
    decreases parts.len(),
{
    if parts.len() >= 3 && qs.len() < 6 {
        let p2 = parts.drop_last();
        let next = push_unique(qs, seen, join_with(p2, "-"@));
        lemma_push_unique_tracks(qs, seen, join_with(p2, "-"@));
        lemma_shorten_tracks(p2, next.0, next.1);
        assert(shorten_queries(parts, qs, seen) == shorten_queries(p2, next.0, next.1));
        let w = choose|s2: Seq<Seq<char>>| tracks_queries(shorten_queries(p2, next.0, next.1), s2);
        assert(tracks_queries(shorten_queries(parts, qs, seen), w));
    } else {
        assert(tracks_queries(shorten_queries(parts, qs, seen), seen));
    }
}

/// The metadata search never repeats a query, not even in another letter
/// case, asks at most six, and never asks one shorter than four bytes.
pub proof fn lemma_sync_queries_distinct(stem: Seq<char>)
    ensures
        forall|i: int, j: int|
            0 <= i < j < sync_queries(stem).len() ==> unicode_lowercase(#[trigger] sync_queries(stem)[i])
                != unicode_lowercase(#[trigger] sync_queries(stem)[j]),
        forall|i: int| 0 <= i < sync_queries(stem).len() ==> utf8_len(#[trigger] sync_queries(stem)[i]) >= 4,
        sync_queries(stem).len() <= 6,
{
    let norm = replace_char(stem, '_', '-');
    let e: Seq<Seq<char>> = seq![];
    assert(tracks_queries(e, e));
    let first = push_unique(e, e, stem);
    lemma_push_unique_tracks(e, e, stem);
    let second = push_unique(first.0, first.1, norm);
    lemma_push_unique_tracks(first.0, first.1, norm);
    lemma_shorten_tracks(drop_empty(split_on(norm, '-')), second.0, second.1);
    let r = sync_queries(stem);
    let s2 = choose|s2: Seq<Seq<char>>| tracks_queries(r, s2);
    assert forall|i: int, j: int| 0 <= i < j < r.len() implies unicode_lowercase(#[trigger] r[i])
        != unicode_lowercase(#[trigger] r[j]) by {
        assert(s2[i] == unicode_lowercase(r[i]));
        assert(s2[j] == unicode_lowercase(r[j]));
    }
}

/// Search queries for a GGUF file whose stem is known.
pub fn hf_sync_queries_for_stem(stem: &str) -> (r: Vec<String>)
    ensures
        strings_view(r@) == sync_queries(stem@),
{
    let sc = chars_of(stem);
    let mut norm: Vec<char> = Vec::new();
    let mut i: usize = 0;
    while i < sc.len()
        invariant
            i <= sc.len(),
            sc@ == stem@,
            norm@ == replace_char(stem@, '_', '-').take(i as int),
        decreases sc.len() - i,
    {
        norm.push(if sc[i] == '_' { '-' } else { sc[i] });
        i += 1;
        assert(norm@ =~= replace_char(stem@, '_', '-').take(i as int));
    }
    assert(replace_char(stem@, '_', '-').take(i as int) =~= replace_char(stem@, '_', '-'));
    let norm_s = string_of(&norm);
    let mut queries: Vec<String> = Vec::new();
    let mut seen: Vec<String> = Vec::new();
    assert(strings_view(queries@) =~= Seq::<Seq<char>>::empty());
    assert(strings_view(seen@) =~= Seq::<Seq<char>>::empty());
    push_unique_query(&mut queries, &mut seen, stem);
    push_unique_query(&mut queries, &mut seen, norm_s.as_str());
    let pieces = split_chars(&norm, '-');
    let ghost pv = pieces@.map_values(|p: Vec<char>| p@);
    let mut parts: Vec<Vec<char>> = Vec::new();
    let mut k: usize = 0;
    assert(pv.take(0) =~= Seq::<Seq<char>>::empty());
    assert(parts@.map_values(|p: Vec<char>| p@) =~= Seq::<Seq<char>>::empty());
    while k < pieces.len()
        invariant
            k <= pieces.len(),
            pv == pieces@.map_values(|p: Vec<char>| p@),
            parts@.map_values(|p: Vec<char>| p@) == drop_empty(pv.take(k as int)),
        decreases pieces.len() - k,
    {
        assert(pv.take(k + 1).drop_last() =~= pv.take(k as int));
        assert(pv.take(k + 1).last() == pieces@[k as int]@);
        if pieces[k].len() > 0 {
            let ghost before = parts@.map_values(|p: Vec<char>| p@);
            let piece = slice_chars(&pieces[k], 0, pieces[k].len());
            assert(piece@ =~= pieces@[k as int]@);
            parts.push(piece);
            assert(parts@.map_values(|p: Vec<char>| p@) =~= before.push(pieces@[k as int]@));
        }
        k += 1;
    }
    assert(pv.take(k as int) =~= pv);
    let dash = chars_of("-");
    while parts.len() >= 3 && queries.len() < 6
        invariant
            dash@ == "-"@,
            sync_queries(stem@) == shorten_queries(
                parts@.map_values(|p: Vec<char>| p@),
                strings_view(queries@),
                strings_view(seen@),
            ),
        decreases parts.len(),
    {
        let ghost before = parts@.map_values(|p: Vec<char>| p@);
        parts.pop();
        assert(parts@.map_values(|p: Vec<char>| p@) =~= before.drop_last());
        let candidate = string_of(&join_chars(parts.as_slice(), &dash));
        push_unique_query(&mut queries, &mut seen, candidate.as_str());
    }
    queries
}

/// Search queries for a local GGUF file name, from its file stem (or the
/// whole name when it has no stem). For a plainly written name (see
/// `plain_file_name`) the stem is `stem_of` its final component.
pub fn build_hf_sync_queries(filename: &str) -> (r: Vec<String>)
    ensures
        strings_view(r@) == sync_queries(filename@) || exists|stem: Seq<char>|
            stem.len() > 0 && contains_seq(filename@, stem) && strings_view(r@) == sync_queries(stem),
        plain_name_of(filename@) matches Some(n) ==> strings_view(r@) == sync_queries(stem_of(n)),
{
    match path_file_stem(filename) {
        Some(stem) => {
            let r = hf_sync_queries_for_stem(stem.as_str());
            assert(stem@.len() > 0 && contains_seq(filename@, stem@) && strings_view(r@) == sync_queries(stem@));
            r
        },
        None => hf_sync_queries_for_stem(filename),
    }
}

} // verus!

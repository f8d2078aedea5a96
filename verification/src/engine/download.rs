//! Choosing, naming and versioning llama-server release downloads.
//!
//! Releases of llama.cpp on GitHub carry `bNNNN` build tags and archives
//! whose names encode the platform and backend. This module decides which
//! archive fits the machine, whether a release is newer than the installed
//! one, and how a download is named on disk. The HTTP requests and file
//! writes themselves are done by the caller.

use vstd::prelude::*;
use crate::text::{all_digits, all_digits_exec, chars_equal, chars_of, digits_value, ends_with, ends_with_chars, eq_ignore_ascii_case, find_chars_from, find_from, is_ascii_alphanumeric, is_ascii_alphanumeric_exec, lemma_split_on_len, parse_digits_u64, slice_chars, split_chars, split_on, string_of, to_lowercase, trim, trim_chars, trim_str, unicode_lowercase, ascii_lower_chars, contains_seq, contains_chars, concat_chars, decimal, decimal_chars, join_chars, join_with, starts_with};

verus! {

broadcast use vstd::string::group_string_axioms;

/// The operating system and architecture a release archive is built for.
#[derive(Clone, Copy, Debug, PartialEq, Eq, Structural)]
pub enum Platform {
    WindowsX64,
    WindowsArm64,
    MacOs,
    Linux,
}

impl Platform {
    pub open spec fn is_windows(self) -> bool {
        self is WindowsX64 || self is WindowsArm64
    }
}

// ---------------------------------------------------------------------------
// Asset patterns
// ---------------------------------------------------------------------------

/// Patterns of archives that hold a llama-server binary, most preferred first.
pub open spec fn server_patterns(p: Platform) -> Seq<Seq<char>> {
    match p {
        Platform::WindowsX64 => seq![
            "llama-b*-bin-win-cuda"@,
            "llama-b*-bin-win-avx2-x64"@,
            "llama-b*-bin-win*x64"@,
        ],
        Platform::WindowsArm64 => seq!["llama-b*-bin-win-arm64"@],
        Platform::MacOs => seq!["llama-b*-bin-macos-arm64"@],
        Platform::Linux => seq!["llama-b*-bin-ubuntu-x64"@],
    }
}

/// Patterns of archives that hold a llama-server binary on `platform`, most
/// preferred first. CUDA runtime packages are not among them.
pub fn server_binary_patterns(platform: Platform) -> (v: Vec<&'static str>)
    ensures
        v@.map_values(|s: &str| s@) == server_patterns(platform),
{
    let v = match platform {
        Platform::WindowsX64 => vec![
            "llama-b*-bin-win-cuda",
            "llama-b*-bin-win-avx2-x64",
            "llama-b*-bin-win*x64",
        ],
        Platform::WindowsArm64 => vec!["llama-b*-bin-win-arm64"],
        Platform::MacOs => vec!["llama-b*-bin-macos-arm64"],
        Platform::Linux => vec!["llama-b*-bin-ubuntu-x64"],
    };
    assert(v@.map_values(|s: &str| s@) =~= server_patterns(platform));
    v
}

/// Patterns of the CUDA runtime packages, which hold DLLs and no server.
pub fn cuda_runtime_patterns() -> (v: Vec<&'static str>)
    ensures
        v@.map_values(|s: &str| s@) == seq!["cudart-llama*win*cuda*x64"@],
{
    let v = vec!["cudart-llama*win*cuda*x64"];
    assert(v@.map_values(|s: &str| s@) =~= seq!["cudart-llama*win*cuda*x64"@]);
    v
}

/// The asset pattern (alternatives separated by `|`) to download for a
/// backend preference.
pub open spec fn asset_pattern(backend: Seq<char>, p: Platform) -> Seq<char> {
    if backend == "cuda"@ {
        if p is WindowsX64 {
            "llama-b*-bin-win-cuda|llama-b*-bin-win*x64"@
        } else {
            server_patterns(p)[0]
        }
    } else if backend == "cpu"@ || backend == "avx2"@ {
        if p.is_windows() {
            "llama-b*-bin-win-avx2-x64"@
        } else {
            "llama-b*-bin-ubuntu-x64"@
        }
    } else {
        server_patterns(p)[0]
    }
}

/// The asset pattern to download for `backend` on `platform`.
pub fn asset_pattern_for(backend: &str, platform: Platform) -> (r: String)
    ensures
        r@ == asset_pattern(backend@, platform),
{
    let b = chars_of(backend);
    let first = server_binary_patterns(platform);
    assert(first@.map_values(|s: &str| s@).len() == first@.len());
    assert(first@.map_values(|s: &str| s@)[0] == server_patterns(platform)[0]);
    if chars_equal(&b, &chars_of("cuda")) {
        if platform == Platform::WindowsX64 {
            "llama-b*-bin-win-cuda|llama-b*-bin-win*x64".to_string()
        } else {
            first[0].to_string()
        }
    } else if chars_equal(&b, &chars_of("cpu")) || chars_equal(&b, &chars_of("avx2")) {
        if platform == Platform::WindowsX64 || platform == Platform::WindowsArm64 {
            "llama-b*-bin-win-avx2-x64".to_string()
        } else {
            "llama-b*-bin-ubuntu-x64".to_string()
        }
    } else {
        first[0].to_string()
    }
}

// ---------------------------------------------------------------------------
// Release versions
// ---------------------------------------------------------------------------

/// The build number of a `bNNNN` (or `BNNNN`) tag, surrounding white space
/// allowed; `None` for any other shape or a number past `u64`.
pub open spec fn build_number(version: Seq<char>) -> Option<u64> {
    let t = trim(version);
    if t.len() >= 2 && (t[0] == 'b' || t[0] == 'B') && all_digits(t.drop_first())
        && digits_value(t.drop_first()) <= u64::MAX {
        Some(digits_value(t.drop_first()) as u64)
    } else {
        None
    }
}

/// Whether `candidate` should replace `current`: always when nothing is
/// installed; never when the tags agree (ignoring ASCII case and white
/// space); by build number when both are build tags; otherwise whenever they
/// differ.
pub open spec fn newer_release(current: Option<Seq<char>>, candidate: Seq<char>) -> bool {
    match current {
        None => true,
        Some(cur) => if eq_ignore_ascii_case(trim(cur), trim(candidate)) {
            false
        } else {
            match (build_number(cur), build_number(candidate)) {
                (Some(c), Some(n)) => n > c,
                _ => true,
            }
        },
    }
}

/// The build number of a llama.cpp release tag such as `b4567`.
pub fn llama_build_number(version: &str) -> (r: Option<u64>)
    ensures
        r == build_number(version@),
{
    let t = trim_str(version);
    if t.len() < 2 || !(t[0] == 'b' || t[0] == 'B') {
        return None;
    }
    let digits = slice_chars(&t, 1, t.len());
    assert(digits@ =~= t@.drop_first());
    if !all_digits_exec(&digits) {
        return None;
    }
    parse_digits_u64(&digits)
}

/// Is `candidate` newer than the installed release `current`?
pub fn release_is_newer(current: Option<&str>, candidate: &str) -> (r: bool)
    ensures
        r == newer_release(
            match current {
                Some(c) => Some(c@),
                None => None,
            },
            candidate@,
        ),
{
    let cur = match current {
        None => {
            return true;
        },
        Some(c) => c,
    };
    let a = ascii_lower_chars(&trim_str(cur));
    let b = ascii_lower_chars(&trim_str(candidate));
    if chars_equal(&a, &b) {
        return false;
    }
    match (llama_build_number(cur), llama_build_number(candidate)) {
        (Some(c), Some(n)) => n > c,
        _ => true,
    }
}

/// A release is never newer than itself, whatever the case of its tag.
pub proof fn lemma_release_not_newer_than_itself(tag: Seq<char>)
    ensures
        !newer_release(Some(tag), tag),
{
}

/// Between two build tags at most one direction is an update, and an update
/// of an update is an update.
pub proof fn lemma_build_tags_ordered(a: Seq<char>, b: Seq<char>, c: Seq<char>)
    requires
        build_number(a) is Some,
        build_number(b) is Some,
        build_number(c) is Some,
    ensures
        !(newer_release(Some(a), b) && newer_release(Some(b), a)),
        newer_release(Some(a), b) && newer_release(Some(b), c) ==> newer_release(Some(a), c)
            || eq_ignore_ascii_case(trim(a), trim(c)),
{
}

// ---------------------------------------------------------------------------
// Matching release assets
// ---------------------------------------------------------------------------

/// A downloadable file of a release.
#[derive(Clone, Debug)]
pub struct GithubAsset {
    pub name: String,
    pub browser_download_url: String,
    pub size: u64,
}

/// A published release with its tag and files.
#[derive(Clone, Debug)]
pub struct GithubRelease {
    pub tag_name: String,
    pub assets: Vec<GithubAsset>,
}

/// The pieces of `parts` occur in `name` in order, each after the previous
/// one, starting at `pos`.
pub open spec fn pieces_in_order(name: Seq<char>, parts: Seq<Seq<char>>, pos: int) -> bool
    decreases parts.len(),
{
    if parts.len() == 0 {
        true
    } else {
        match find_from(name, parts[0], pos) {
            None => false,
            Some(j) => pieces_in_order(name, parts.drop_first(), j + parts[0].len()),
        }
    }
}

/// The lowercased pieces of a `*` wildcard pattern.
pub open spec fn pattern_pieces(pattern: Seq<char>) -> Seq<Seq<char>> {
    split_on(pattern, '*').map_values(|p: Seq<char>| unicode_lowercase(p))
}

/// An asset name fits a wildcard pattern: it is a `.zip` or `.tar.gz`
/// archive, and the pattern's fixed pieces occur in it in order (all
/// compared in lowercase).
pub open spec fn asset_fits(name: Seq<char>, pattern: Seq<char>) -> bool {
    let lower = unicode_lowercase(name);
    &&& (ends_with(lower, ".zip"@) || ends_with(lower, ".tar.gz"@))
    &&& pieces_in_order(lower, pattern_pieces(pattern), 0)
}

/// Index of the first asset that fits the pattern.
pub open spec fn first_fitting(names: Seq<Seq<char>>, pattern: Seq<char>) -> Option<int> {
    if exists|i: int| 0 <= i < names.len() && asset_fits(#[trigger] names[i], pattern) {
        Some(choose|i: int|
            0 <= i < names.len() && asset_fits(names[i], pattern) && forall|j: int|
                0 <= j < i ==> !asset_fits(#[trigger] names[j], pattern))
    } else {
        None
    }
}

pub open spec fn asset_names(assets: Seq<GithubAsset>) -> Seq<Seq<char>> {
    assets.map_values(|a: GithubAsset| a.name@)
}

fn pieces_in_order_exec(name: &[char], parts: &Vec<Vec<char>>, Ghost(spec_parts): Ghost<Seq<Seq<char>>>) -> (b: bool)
    requires
        parts@.map_values(|p: Vec<char>| p@) == spec_parts,
    ensures
        b == pieces_in_order(name@, spec_parts, 0),
{
    let mut pos: usize = 0;
    let mut k: usize = 0;
    assert(spec_parts.skip(0) =~= spec_parts);
    while k < parts.len()
        invariant
            k <= parts.len(),
            pos <= name.len(),
            parts@.map_values(|p: Vec<char>| p@) == spec_parts,
            pieces_in_order(name@, spec_parts, 0) == pieces_in_order(name@, spec_parts.skip(k as int), pos as int),
        decreases parts.len() - k,
    {
        let ghost rest = spec_parts.skip(k as int);
        assert(rest[0] == parts@[k as int]@);
        assert(rest.drop_first() =~= spec_parts.skip(k + 1));
        match find_chars_from(name, &parts[k], pos) {
            None => {
                return false;
            },
            Some(j) => {
                proof {
                    crate::text::lemma_find_from(name@, parts@[k as int]@, pos as int);
                }
                pos = j + parts[k].len();
            },
        }
        k += 1;
    }
    true
}

fn asset_fits_exec(name: &str, parts: &Vec<Vec<char>>, Ghost(pattern): Ghost<Seq<char>>) -> (b: bool)
    requires
        parts@.map_values(|p: Vec<char>| p@) == pattern_pieces(pattern),
    ensures
        b == asset_fits(name@, pattern),
{
    let lower = chars_of(&to_lowercase(name));
    if !(ends_with_chars(&lower, &chars_of(".zip")) || ends_with_chars(&lower, &chars_of(".tar.gz"))) {
        return false;
    }
    pieces_in_order_exec(&lower, parts, Ghost(pattern_pieces(pattern)))
}

fn pattern_pieces_exec(pattern: &[char]) -> (r: Vec<Vec<char>>)
    ensures
        r@.map_values(|p: Vec<char>| p@) == pattern_pieces(pattern@),
{
    let raw = split_chars(pattern, '*');
    let ghost raw_view = raw@.map_values(|p: Vec<char>| p@);
    let ghost pieces = split_on(pattern@, '*');
    let mut r: Vec<Vec<char>> = Vec::new();
    let mut i: usize = 0;
    while i < raw.len()
        invariant
            i <= raw.len(),
            raw_view == raw@.map_values(|p: Vec<char>| p@),
            raw_view == pieces,
            pieces == split_on(pattern@, '*'),
            r@.len() == i,
            forall|j: int| 0 <= j < i ==> (#[trigger] r@[j])@ == unicode_lowercase(pieces[j]),
        decreases raw.len() - i,
    {
        let piece = string_of(&raw[i]);
        assert(raw_view[i as int] == raw@[i as int]@);
        r.push(chars_of(&to_lowercase(piece.as_str())));
        i += 1;
    }
    assert(r@.map_values(|p: Vec<char>| p@) =~= pattern_pieces(pattern@));
    r
}

fn find_matching_asset_chars(assets: &[GithubAsset], pattern: &[char]) -> (r: Option<usize>)
    ensures
        match r {
            Some(i) => first_fitting(asset_names(assets@), pattern@) == Some(i as int),
            None => first_fitting(asset_names(assets@), pattern@) is None,
        },
{
    let parts = pattern_pieces_exec(pattern);
    let ghost names = asset_names(assets@);
    let mut i: usize = 0;
    while i < assets.len()
        invariant
            i <= assets.len(),
            names == asset_names(assets@),
            parts@.map_values(|p: Vec<char>| p@) == pattern_pieces(pattern@),
            forall|j: int| 0 <= j < i ==> !asset_fits(#[trigger] names[j], pattern@),
        decreases assets.len() - i,
    {
        assert(names[i as int] == assets@[i as int].name@);
        if asset_fits_exec(assets[i].name.as_str(), &parts, Ghost(pattern@)) {
            let ghost w = i as int;
            assert(0 <= w < names.len() && asset_fits(names[w], pattern@));
            let ghost c = choose|c: int|
                0 <= c < names.len() && asset_fits(names[c], pattern@) && forall|j: int|
                    0 <= j < c ==> !asset_fits(#[trigger] names[j], pattern@);
            assert(c == w) by {
                if c < w {
                    assert(!asset_fits(names[c], pattern@));
                } else if c > w {
                    assert(!asset_fits(names[w], pattern@));
                }
            }
            return Some(i);
        }
        i += 1;
    }
    None
}

/// Index of the first asset whose name fits the `*` wildcard `pattern`.
pub fn find_matching_asset(assets: &[GithubAsset], pattern: &str) -> (r: Option<usize>)
    ensures
        match r {
            Some(i) => first_fitting(asset_names(assets@), pattern@) == Some(i as int),
            None => first_fitting(asset_names(assets@), pattern@) is None,
        },
{
    find_matching_asset_chars(assets, &chars_of(pattern))
}

// ---------------------------------------------------------------------------
// Choosing a release
// ---------------------------------------------------------------------------

/// The alternatives of a `|`-separated pattern, each trimmed.
pub open spec fn pattern_alternatives(pattern: Seq<char>) -> Seq<Seq<char>> {
    split_on(pattern, '|').map_values(|p: Seq<char>| trim(p))
}

/// In one release, the first asset fitting `pats[k..]`, trying the patterns
/// in order.
pub open spec fn pick_in_release(names: Seq<Seq<char>>, pats: Seq<Seq<char>>, k: int) -> Option<int>
    decreases pats.len() - k,
{
    if k < 0 || k >= pats.len() {
        None
    } else {
        match first_fitting(names, pats[k]) {
            Some(i) => Some(i),
            None => pick_in_release(names, pats, k + 1),
        }
    }
}

/// The first release, from `r` on, with an asset fitting one of `pats`:
/// the release's index and the asset's.
pub open spec fn pick_release(rels: Seq<GithubRelease>, pats: Seq<Seq<char>>, r: int) -> Option<(int, int)>
    decreases rels.len() - r,
{
    if r < 0 || r >= rels.len() {
        None
    } else {
        match pick_in_release(asset_names(rels[r].assets@), pats, 0) {
            Some(i) => Some((r, i)),
            None => pick_release(rels, pats, r + 1),
        }
    }
}

/// The tag, download URL and size of asset `a` of release `r`.
pub open spec fn asset_choice(rels: Seq<GithubRelease>, r: int, a: int) -> (Seq<char>, Seq<char>, u64) {
    let asset = rels[r].assets@[a];
    (rels[r].tag_name@, asset.browser_download_url@, asset.size)
}

pub open spec fn choice_view(c: Option<(String, String, u64)>) -> Option<(Seq<char>, Seq<char>, u64)> {
    match c {
        Some((t, u, n)) => Some((t@, u@, n)),
        None => None,
    }
}

pub open spec fn strs_seq(v: Seq<&str>) -> Seq<Seq<char>> {
    v.map_values(|s: &str| s@)
}

fn pick_in_release_exec(assets: &[GithubAsset], pats: &Vec<Vec<char>>, Ghost(spec_pats): Ghost<Seq<Seq<char>>>) -> (r: Option<usize>)
    requires
        pats@.map_values(|p: Vec<char>| p@) == spec_pats,
    ensures
        match r {
            Some(i) => pick_in_release(asset_names(assets@), spec_pats, 0) == Some(i as int),
            None => pick_in_release(asset_names(assets@), spec_pats, 0) is None,
        },
{
    let mut k: usize = 0;
    while k < pats.len()
        invariant
            k <= pats.len(),
            pats@.map_values(|p: Vec<char>| p@) == spec_pats,
            pick_in_release(asset_names(assets@), spec_pats, 0) == pick_in_release(
                asset_names(assets@),
                spec_pats,
                k as int,
            ),
        decreases pats.len() - k,
    {
        assert(spec_pats[k as int] == pats@[k as int]@);
        match find_matching_asset_chars(assets, &pats[k]) {
            Some(i) => {
                return Some(i);
            },
            None => {},
        }
        k += 1;
    }
    None
}

fn pick_release_exec(releases: &[GithubRelease], pats: &Vec<Vec<char>>, Ghost(spec_pats): Ghost<Seq<Seq<char>>>) -> (c: Option<(String, String, u64)>)
    requires
        pats@.map_values(|p: Vec<char>| p@) == spec_pats,
    ensures
        choice_view(c) == match pick_release(releases@, spec_pats, 0) {
            Some((r, a)) => Some(asset_choice(releases@, r, a)),
            None => None,
        },
{
    let mut r: usize = 0;
    while r < releases.len()
        invariant
            r <= releases.len(),
            pats@.map_values(|p: Vec<char>| p@) == spec_pats,
            pick_release(releases@, spec_pats, 0) == pick_release(releases@, spec_pats, r as int),
        decreases releases.len() - r,
    {
        let rel = &releases[r];
        match pick_in_release_exec(rel.assets.as_slice(), pats, Ghost(spec_pats)) {
            Some(i) => {
                proof {
                    lemma_first_fitting_in_range(asset_names(rel.assets@), spec_pats, 0);
                }
                let a = &rel.assets[i];
                return Some((rel.tag_name.clone(), a.browser_download_url.clone(), a.size));
            },
            None => {},
        }
        r += 1;
    }
    None
}

proof fn lemma_first_fitting(names: Seq<Seq<char>>, p: Seq<char>)
    ensures
        first_fitting(names, p) matches Some(i) ==> 0 <= i < names.len(),
{
    if exists|i: int| 0 <= i < names.len() && asset_fits(#[trigger] names[i], p) {
        let w = choose|i: int| 0 <= i < names.len() && asset_fits(#[trigger] names[i], p);
        let c = choose|i: int|
            0 <= i < names.len() && asset_fits(names[i], p) && forall|j: int|
                0 <= j < i ==> !asset_fits(#[trigger] names[j], p);
        assert(exists|i: int|
            0 <= i < names.len() && asset_fits(names[i], p) && forall|j: int|
                0 <= j < i ==> !asset_fits(#[trigger] names[j], p)) by {
            lemma_least_fitting(names, p, w);
        }
    }
}

proof fn lemma_least_fitting(names: Seq<Seq<char>>, p: Seq<char>, w: int)
    requires
        0 <= w < names.len(),
        asset_fits(names[w], p),
    ensures
        exists|i: int|
            0 <= i < names.len() && asset_fits(names[i], p) && forall|j: int|
                0 <= j < i ==> !asset_fits(#[trigger] names[j], p),
    decreases w,
{
    if exists|j: int| 0 <= j < w && asset_fits(#[trigger] names[j], p) {
        let j = choose|j: int| 0 <= j < w && asset_fits(#[trigger] names[j], p);
        lemma_least_fitting(names, p, j);
    } else {
        assert(forall|j: int| 0 <= j < w ==> !asset_fits(#[trigger] names[j], p));
    }
}

proof fn lemma_first_fitting_in_range(names: Seq<Seq<char>>, pats: Seq<Seq<char>>, k: int)
    ensures
        pick_in_release(names, pats, k) matches Some(i) ==> 0 <= i < names.len(),
    decreases pats.len() - k,
{
    if 0 <= k < pats.len() {
        lemma_first_fitting_in_range(names, pats, k + 1);
        lemma_first_fitting(names, pats[k]);
    }
}

fn alternatives_exec(pattern: &str) -> (v: Vec<Vec<char>>)
    ensures
        v@.map_values(|p: Vec<char>| p@) == pattern_alternatives(pattern@),
{
    let raw = split_chars(&chars_of(pattern), '|');
    let ghost pieces = split_on(pattern@, '|');
    let mut v: Vec<Vec<char>> = Vec::new();
    let mut i: usize = 0;
    while i < raw.len()
        invariant
            i <= raw.len(),
            raw@.map_values(|p: Vec<char>| p@) == pieces,
            pieces == split_on(pattern@, '|'),
            v@.len() == i,
            forall|j: int| 0 <= j < i ==> (#[trigger] v@[j])@ == trim(pieces[j]),
        decreases raw.len() - i,
    {
        assert(pieces[i as int] == raw@[i as int]@);
        v.push(trim_chars(&raw[i]));
        i += 1;
    }
    assert(v@.map_values(|p: Vec<char>| p@) =~= pattern_alternatives(pattern@));
    v
}

fn strs_to_chars(v: &Vec<&str>) -> (r: Vec<Vec<char>>)
    ensures
        r@.map_values(|p: Vec<char>| p@) == strs_seq(v@),
{
    let mut r: Vec<Vec<char>> = Vec::new();
    let mut i: usize = 0;
    while i < v.len()
        invariant
            i <= v.len(),
            r@.len() == i,
            forall|j: int| 0 <= j < i ==> (#[trigger] r@[j])@ == v@[j]@,
        decreases v.len() - i,
    {
        r.push(chars_of(v[i]));
        i += 1;
    }
    assert(r@.map_values(|p: Vec<char>| p@) =~= strs_seq(v@));
    r
}

/// The release asset for a `|`-separated pattern: releases are tried newest
/// first, and within a release the alternatives in order. Returns the
/// release tag, the download URL and the size.
pub fn select_release_asset(releases: &[GithubRelease], pattern: &str) -> (c: Option<(String, String, u64)>)
    ensures
        choice_view(c) == match pick_release(releases@, pattern_alternatives(pattern@), 0) {
            Some((r, a)) => Some(asset_choice(releases@, r, a)),
            None => None,
        },
{
    let alts = alternatives_exec(pattern);
    pick_release_exec(releases, &alts, Ghost(pattern_alternatives(pattern@)))
}

/// The newest CUDA runtime package among the releases, if any.
pub fn select_cuda_runtime_asset(releases: &[GithubRelease]) -> (c: Option<(String, String, u64)>)
    ensures
        choice_view(c) == match pick_release(releases@, seq!["cudart-llama*win*cuda*x64"@], 0) {
            Some((r, a)) => Some(asset_choice(releases@, r, a)),
            None => None,
        },
{
    let pats = cuda_runtime_patterns();
    let chars = strs_to_chars(&pats);
    let ghost cuda = seq!["cudart-llama*win*cuda*x64"@];
    pick_release_exec(releases, &chars, Ghost(cuda))
}

/// Outcome of looking for a llama-server update.
#[derive(Clone, Debug)]
pub enum UpdateCheck {
    /// The installed build is as new as the newest release with a server.
    UpToDate,
    /// A newer release holds a server archive.
    Available { tag: String, url: String, size: u64 },
    /// None of the releases holds a server archive for this platform.
    NoCompatible,
}

pub ghost enum UpdateModel {
    UpToDate,
    Available(int, int),
    NoCompatible,
}

/// Scanning releases newest first from `r`: stop as up to date at the first
/// release that is not newer than `current`; otherwise take the first
/// release with a server archive.
pub open spec fn update_from(rels: Seq<GithubRelease>, current: Option<Seq<char>>, pats: Seq<Seq<char>>, r: int) -> UpdateModel
    decreases rels.len() - r,
{
    if r < 0 || r >= rels.len() {
        UpdateModel::NoCompatible
    } else if !newer_release(current, rels[r].tag_name@) {
        UpdateModel::UpToDate
    } else {
        match pick_in_release(asset_names(rels[r].assets@), pats, 0) {
            Some(i) => UpdateModel::Available(r, i),
            None => update_from(rels, current, pats, r + 1),
        }
    }
}

pub open spec fn update_matches(u: UpdateCheck, m: UpdateModel, rels: Seq<GithubRelease>) -> bool {
    match m {
        UpdateModel::UpToDate => u is UpToDate,
        UpdateModel::NoCompatible => u is NoCompatible,
        UpdateModel::Available(r, a) => match u {
            UpdateCheck::Available { tag, url, size } => (tag@, url@, size) == asset_choice(rels, r, a),
            _ => false,
        },
    }
}

/// Decide whether a newer llama-server is available for `platform`, given
/// the installed version and the releases, newest first.
pub fn select_update(releases: &[GithubRelease], current: Option<&str>, platform: Platform) -> (u: UpdateCheck)
    ensures
        update_matches(
            u,
            update_from(
                releases@,
                match current {
                    Some(c) => Some(c@),
                    None => None,
                },
                server_patterns(platform),
                0,
            ),
            releases@,
        ),
{
    let ghost cur = match current {
        Some(c) => Some(c@),
        None => None,
    };
    let pats = strs_to_chars(&server_binary_patterns(platform));
    let mut r: usize = 0;
    while r < releases.len()
        invariant
            r <= releases.len(),
            pats@.map_values(|p: Vec<char>| p@) == server_patterns(platform),
            cur == match current {
                Some(c) => Some(c@),
                None => None::<Seq<char>>,
            },
            update_from(releases@, cur, server_patterns(platform), 0) == update_from(
                releases@,
                cur,
                server_patterns(platform),
                r as int,
            ),
        decreases releases.len() - r,
    {
        let rel = &releases[r];
        if !release_is_newer(current, rel.tag_name.as_str()) {
            return UpdateCheck::UpToDate;
        }
        match pick_in_release_exec(rel.assets.as_slice(), &pats, Ghost(server_patterns(platform))) {
            Some(i) => {
                proof {
                    lemma_first_fitting_in_range(asset_names(rel.assets@), server_patterns(platform), 0);
                }
                let a = &rel.assets[i];
                return UpdateCheck::Available {
                    tag: rel.tag_name.clone(),
                    url: a.browser_download_url.clone(),
                    size: a.size,
                };
            },
            None => {},
        }
        r += 1;
    }
    UpdateCheck::NoCompatible
}

// ---------------------------------------------------------------------------
// Download file names and locks
// ---------------------------------------------------------------------------

/// Characters kept as they are in a download file name.
pub open spec fn name_safe_char(c: char) -> char {
    if is_ascii_alphanumeric(c) || c == '.' || c == '-' || c == '_' {
        c
    } else {
        '_'
    }
}

/// The text after the last `/` of a URL.
pub open spec fn url_tail(url: Seq<char>) -> Seq<char> {
    split_on(url, '/').last()
}

/// File name for a download of `url` at release `tag`: `{tag}-{last URL
/// segment}` (or `llama-server.zip` when that segment is blank), every
/// character but ASCII letters, digits, `.`, `-` and `_` replaced by `_`,
/// cut to 180 bytes.
pub open spec fn download_name(url: Seq<char>, tag: Seq<char>) -> Seq<char> {
    let tail = if trim(url_tail(url)).len() == 0 {
        "llama-server.zip"@
    } else {
        url_tail(url)
    };
    let raw = tag + "-"@ + tail;
    let safe = raw.map_values(|c: char| name_safe_char(c));
    if safe.len() > 180 {
        safe.take(180)
    } else {
        safe
    }
}

/// A file-system-safe name for a download.
pub fn safe_download_name(url: &str, tag: &str) -> (r: String)
    ensures
        r@ == download_name(url@, tag@),
{
    let pieces = split_chars(&chars_of(url), '/');
    proof {
        lemma_split_on_len(url@, '/');
    }
    let last = &pieces[pieces.len() - 1];
    assert(last@ == url_tail(url@));
    let tail = if trim_chars(last).len() == 0 {
        chars_of("llama-server.zip")
    } else {
        slice_chars(last, 0, last.len())
    };
    let mut raw = chars_of(tag);
    raw.push('-');
    let mut i: usize = 0;
    let ghost t0 = raw@;
    while i < tail.len()
        invariant
            i <= tail.len(),
            raw@ == t0 + tail@.take(i as int),
        decreases tail.len() - i,
    {
        raw.push(tail[i]);
        i += 1;
        assert(raw@ =~= t0 + tail@.take(i as int));
    }
    assert(tail@.take(i as int) =~= tail@);
    assert(tag@ + "-"@ =~= t0) by {
        reveal_strlit("-");
    }
    let mut safe: Vec<char> = Vec::new();
    let mut j: usize = 0;
    while j < raw.len() && j < 180
        invariant
            j <= raw.len(),
            j <= 180,
            safe@ == raw@.take(j as int).map_values(|c: char| name_safe_char(c)),
        decreases raw.len() - j,
    {
        let c = raw[j];
        let kept = if is_ascii_alphanumeric_exec(c) || c == '.' || c == '-' || c == '_' {
            c
        } else {
            '_'
        };
        safe.push(kept);
        j += 1;
        assert(safe@ =~= raw@.take(j as int).map_values(|c: char| name_safe_char(c)));
    }
    assert(safe@ =~= download_name(url@, tag@));
    string_of(&safe)
}

/// Is an I/O failure a file held open by another process? On Windows that is
/// a sharing violation (32) or a lock violation (33); everywhere, a refused
/// permission.
pub fn file_is_locked(raw_os_error: Option<i32>, permission_denied: bool) -> (r: bool)
    ensures
        r == (raw_os_error == Some(32i32) || raw_os_error == Some(33i32) || permission_denied),
{
    match raw_os_error {
        Some(32) | Some(33) => true,
        _ => permission_denied,
    }
}

// ---------------------------------------------------------------------------
// Fetching a runtime archive
// ---------------------------------------------------------------------------

/// What to do with the answer to one download attempt.
#[derive(Clone, Debug, PartialEq, Eq)]
pub enum ArchiveResponse {
    /// The server ignored the resume request: delete the partial file and
    /// take the whole body.
    Restart,
    /// Wait and try again.
    RetryLater(String),
    /// Write the body after what is already on disk.
    Stream,
}

pub ghost enum ArchiveResponseModel {
    Restart,
    RetryLater(Seq<char>),
    Stream,
}

impl View for ArchiveResponse {
    type V = ArchiveResponseModel;

    open spec fn view(&self) -> ArchiveResponseModel {
        match self {
            ArchiveResponse::Restart => ArchiveResponseModel::Restart,
            ArchiveResponse::RetryLater(m) => ArchiveResponseModel::RetryLater(m@),
            ArchiveResponse::Stream => ArchiveResponseModel::Stream,
        }
    }
}

fn cat(a: &str, b: &str) -> (r: String)
    ensures
        r@ == a@ + b@,
{
    string_of(&concat_chars(&chars_of(a), &chars_of(b)))
}

fn dec(n: u64) -> (r: String)
    ensures
        r@ == decimal(n as nat),
{
    string_of(&decimal_chars(n))
}

/// The plan for an answer with HTTP `status` (shown as `status_text`) when
/// `existing` bytes were already on disk.
pub fn archive_response(existing: u64, status: u16, status_text: &str, url: &str) -> (r: ArchiveResponse)
    ensures
        r@ == (if existing > 0 && status == 200 {
            ArchiveResponseModel::Restart
        } else if !(200 <= status <= 299) {
            ArchiveResponseModel::RetryLater("Download failed with status: "@ + status_text@ + " (url: "@ + url@ + ")"@)
        } else {
            ArchiveResponseModel::Stream
        }),
{
    if existing > 0 && status == 200 {
        ArchiveResponse::Restart
    } else if !(200 <= status && status <= 299) {
        ArchiveResponse::RetryLater(cat(cat(cat(cat("Download failed with status: ", status_text).as_str(), " (url: ").as_str(), url).as_str(), ")"))
    } else {
        ArchiveResponse::Stream
    }
}

/// The expected size of the archive: for a resumed answer the larger of
/// the release's stated size and what is on disk plus the answer's length;
/// otherwise the answer's length, or the stated size when it has none. The
/// sum wraps as the release build computes it.
pub fn archive_total(status: u16, release_size: u64, existing: u64, response_len: u64, content_length: Option<u64>) -> (t: u64)
    ensures
        t == (if status == 206 {
            let sum = vstd::wrapping::u64_specs::wrapping_add(existing, response_len);
            if release_size >= sum { release_size } else { sum }
        } else {
            match content_length {
                Some(l) => l,
                None => release_size,
            }
        }),
{
    if status == 206 {
        let sum = existing.wrapping_add(response_len);
        if release_size >= sum { release_size } else { sum }
    } else {
        match content_length {
            Some(l) => l,
            None => release_size,
        }
    }
}

/// The progress line while the archive downloads, in whole MiB.
pub fn archive_progress_message(tag: &str, downloaded: u64, total: u64) -> (m: String)
    ensures
        m@ == "Downloading llama-server ("@ + tag@ + ")... "@ + decimal((downloaded / 1048576) as nat) + "/"@
            + decimal((total / 1048576) as nat) + " MB"@,
{
    let head = cat(cat("Downloading llama-server (", tag).as_str(), ")... ");
    let counts = cat(cat(dec(downloaded / 1048576).as_str(), "/").as_str(), dec(total / 1048576).as_str());
    cat(cat(head.as_str(), counts.as_str()).as_str(), " MB")
}

/// Progress is reported each time the count passes a 2 MiB boundary.
pub fn crosses_progress_step(downloaded: u64, chunk_len: u64) -> (b: bool)
    ensures
        b == (downloaded % 2097152 < chunk_len),
{
    downloaded % 2097152 < chunk_len
}

/// Download progress in thousandths of the whole load: the download is the
/// first 80%.
pub fn archive_progress_permille(downloaded: u64, total: u64) -> (p: u64)
    ensures
        total == 0 ==> p == 0,
        total > 0 ==> p == (if downloaded >= total { 800 } else { (downloaded as int * 800 / total as int) as u64 }),
{
    if total == 0 {
        0
    } else if downloaded >= total {
        800
    } else {
        assert((downloaded as int) * 800 / (total as int) < 800) by (nonlinear_arith)
            requires
                downloaded < total,
                total > 0,
        ;
        let r: u128 = (downloaded as u128) * 800 / (total as u128);
        r as u64
    }
}

/// An attempt that ended short of a known size is retried with this error.
pub fn archive_shortfall(downloaded: u64, total: u64) -> (r: Option<String>)
    ensures
        !(total > 0 && downloaded < total) ==> r is None,
        total > 0 && downloaded < total ==> (r matches Some(m) && m@ == "Download incomplete: "@ + decimal(
            downloaded as nat,
        ) + " of "@ + decimal(total as nat) + " bytes"@),
{
    if total > 0 && downloaded < total {
        Some(cat(cat(cat(cat("Download incomplete: ", dec(downloaded).as_str()).as_str(), " of ").as_str(), dec(total).as_str()).as_str(), " bytes"))
    } else {
        None
    }
}

/// A CUDA runtime archive (its URL mentions `cudart`, in any case) is
/// unpacked next to the binaries rather than staged.
pub fn is_cuda_runtime_url(url: &str) -> (b: bool)
    ensures
        b == contains_seq(unicode_lowercase(url@), "cudart"@),
{
    contains_chars(&chars_of(to_lowercase(url).as_str()), &chars_of("cudart"))
}

// ---------------------------------------------------------------------------
// Unpacking a runtime archive
// ---------------------------------------------------------------------------

/// A zip archive starts with `PK`.
pub fn looks_like_zip(magic: &[u8]) -> (b: bool)
    ensures
        b == (magic@.len() >= 2 && magic@[0] == 0x50 && magic@[1] == 0x4b),
{
    magic.len() >= 2 && magic[0] == 0x50 && magic[1] == 0x4b
}

/// An entry name that lies under the directory `top`: the directory
/// itself, or a path inside it.
pub open spec fn under_top(name: Seq<char>, top: Seq<char>) -> bool {
    name == top || starts_with(name, top + "/"@)
}

/// How many leading path components to strip from every entry: one when
/// all entries lie under the first entry's first component, else none.
/// Entries that could not be read (`None`) are left out of the check; an
/// unreadable first entry strips nothing.
pub open spec fn components_to_skip(names: Seq<Option<Seq<char>>>) -> nat {
    if names.len() == 0 {
        0
    } else {
        match names[0] {
            None => 0,
            Some(first) => {
                let top = split_on(first, '/')[0];
                if top.len() == 0 {
                    0
                } else if forall|i: int|
                    0 <= i < names.len() ==> (#[trigger] names[i] matches Some(n) ==> under_top(n, top)) {
                    1
                } else {
                    0
                }
            },
        }
    }
}

pub open spec fn opt_names(v: Seq<Option<String>>) -> Seq<Option<Seq<char>>> {
    v.map_values(|o: Option<String>| match o {
        Some(s) => Some(s@),
        None => None,
    })
}

/// Components to strip from the entries of an archive, from their names.
pub fn detect_top_level_dir(names: &Vec<Option<String>>) -> (n: usize)
    ensures
        n as nat == components_to_skip(opt_names(names@)),
{
    let ghost ns = opt_names(names@);
    if names.len() == 0 {
        return 0;
    }
    let first = match &names[0] {
        None => {
            return 0;
        },
        Some(f) => f,
    };
    let pieces = split_chars(&chars_of(first.as_str()), '/');
    proof {
        lemma_split_on_len(first@, '/');
    }
    let top = slice_chars(&pieces[0], 0, pieces[0].len());
    assert(top@ =~= split_on(first@, '/')[0]);
    if top.len() == 0 {
        return 0;
    }
    let mut prefix = top.clone();
    prefix.push('/');
    proof {
        reveal_strlit("/");
    }
    assert(prefix@ =~= top@ + "/"@);
    let mut i: usize = 0;
    while i < names.len()
        invariant
            i <= names@.len(),
            ns == opt_names(names@),
            prefix@ == top@ + "/"@,
            ns.len() > 0,
            ns[0] == Some(first@),
            top@ == split_on(first@, '/')[0],
            top@.len() > 0,
            forall|j: int| 0 <= j < i ==> (#[trigger] ns[j] matches Some(n) ==> under_top(n, top@)),
        decreases names@.len() - i,
    {
        match &names[i] {
            Some(n) => {
                let nc = chars_of(n.as_str());
                if !(chars_equal(&nc, &top) || crate::text::starts_with_chars(&nc, &prefix)) {
                    assert(ns[i as int] == Some(n@));
                    assert(!under_top(n@, top@));
                    assert(!(ns[i as int] matches Some(x) ==> under_top(x, top@)));
                    return 0;
                }
            },
            None => {},
        }
        i += 1;
    }
    1
}

/// Where an archive entry is unpacked, relative to the target: its name
/// with the first `skip` components removed. Names holding `..` and names
/// with nothing left are skipped.
pub open spec fn entry_target(name: Seq<char>, skip: nat) -> Option<Seq<char>> {
    if contains_seq(name, ".."@) {
        None
    } else {
        let pieces = split_on(name, '/');
        let rest = if skip <= pieces.len() { pieces.skip(skip as int) } else { seq![] };
        let rel = join_with(rest, "/"@);
        if rel.len() == 0 {
            None
        } else {
            Some(rel)
        }
    }
}

proof fn lemma_join_push(ps: Seq<Seq<char>>, x: Seq<char>, sep: Seq<char>)
    requires
        ps.len() >= 1,
    ensures
        join_with(ps.push(x), sep) == join_with(ps, sep) + sep + x,
{
    assert(ps.push(x).drop_last() =~= ps);
}

proof fn lemma_join_split(s: Seq<char>)
    ensures
        join_with(split_on(s, '/'), "/"@) == s,
    decreases s.len(),
{
    reveal_strlit("/");
    if s.len() == 0 {
        assert(join_with(seq![seq![]], "/"@) == Seq::<char>::empty());
    } else {
        let prev = split_on(s.drop_last(), '/');
        lemma_split_on_len(s.drop_last(), '/');
        lemma_join_split(s.drop_last());
        if s.last() == '/' {
            lemma_join_push(prev, seq![], "/"@);
            assert(s.drop_last() + "/"@ + Seq::<char>::empty() =~= s);
        } else {
            let n = prev.len();
            let upd = prev.update(n - 1, prev.last().push(s.last()));
            if n == 1 {
                assert(join_with(upd, "/"@) == upd[0]);
                assert(join_with(prev, "/"@) == prev[0]);
                assert(prev.last().push(s.last()) =~= s);
            } else {
                assert(upd.drop_last() =~= prev.drop_last());
                assert(join_with(upd, "/"@) == join_with(prev.drop_last(), "/"@) + "/"@ + prev.last().push(s.last()));
                assert(join_with(prev, "/"@) == join_with(prev.drop_last(), "/"@) + "/"@ + prev.last());
                assert(join_with(upd, "/"@) =~= join_with(prev, "/"@).push(s.last()));
                assert(s.drop_last().push(s.last()) =~= s);
            }
        }
    }
}

/// Joining a tail of the pieces gives a suffix of the joined whole.
proof fn lemma_join_tail_suffix(ps: Seq<Seq<char>>, k: int)
    requires
        0 <= k <= ps.len(),
    ensures
        exists|i: int| 0 <= i <= join_with(ps, "/"@).len() && join_with(ps, "/"@).skip(i) == join_with(ps.skip(k), "/"@),
    decreases ps.len(),
{
    reveal_strlit("/");
    let whole = join_with(ps, "/"@);
    if k == 0 {
        assert(ps.skip(0) =~= ps);
        assert(whole.skip(0) =~= whole);
    } else if k == ps.len() {
        assert(ps.skip(k) =~= Seq::<Seq<char>>::empty());
        assert(whole.skip(whole.len() as int) =~= Seq::<char>::empty());
    } else {
        let init = ps.drop_last();
        lemma_join_tail_suffix(init, k);
        let i = choose|i: int| 0 <= i <= join_with(init, "/"@).len() && join_with(init, "/"@).skip(i) == join_with(init.skip(k), "/"@);
        assert(ps.len() >= 2);
        assert(whole == join_with(init, "/"@) + "/"@ + ps.last());
        assert(ps.skip(k).drop_last() =~= init.skip(k));
        assert(ps.skip(k).last() == ps.last());
        if init.skip(k).len() == 0 {
            assert(k == init.len());
            assert(ps.skip(k) =~= seq![ps.last()]);
            let j: int = join_with(init, "/"@).len() as int + 1;
            assert(whole.skip(j) =~= ps.last());
        } else {
            assert(ps.skip(k).len() >= 2);
            assert(join_with(ps.skip(k), "/"@) == join_with(init.skip(k), "/"@) + "/"@ + ps.last());
            assert(whole.skip(i) =~= join_with(init, "/"@).skip(i) + "/"@ + ps.last());
        }
    }
}

/// An archive entry is never unpacked outside the target: its relative
/// path is a tail of the entry's name, so it holds no `..` either.
pub proof fn lemma_entry_target_stays_inside(name: Seq<char>, skip: nat)
    ensures
        entry_target(name, skip) matches Some(t) ==> !contains_seq(t, ".."@) && exists|i: int|
            0 <= i <= name.len() && name.skip(i) == t,
{
    if let Some(t) = entry_target(name, skip) {
        let pieces = split_on(name, '/');
        lemma_join_split(name);
        lemma_split_on_len(name, '/');
        let k: int = if skip <= pieces.len() { skip as int } else { pieces.len() as int };
        assert(skip > pieces.len() ==> pieces.skip(k) =~= Seq::<Seq<char>>::empty());
        lemma_join_tail_suffix(pieces, k);
        let i = choose|i: int| 0 <= i <= join_with(pieces, "/"@).len() && join_with(pieces, "/"@).skip(i) == join_with(pieces.skip(k), "/"@);
        assert(name.skip(i) == t);
        if contains_seq(t, ".."@) {
            reveal_strlit("..");
            let j = choose|j: int| crate::text::occurs_at(t, ".."@, j);
            assert(0 <= j && j + 2 <= t.len());
            assert(name.subrange(i + j, i + j + 2) =~= t.subrange(j, j + 2));
            assert(crate::text::occurs_at(name, ".."@, i + j));
        }
    }
}

/// The relative path an archive entry is unpacked to, if any.
pub fn archive_entry_target(name: &str, skip: usize) -> (r: Option<String>)
    ensures
        match entry_target(name@, skip as nat) {
            Some(t) => r matches Some(s) && s@ == t,
            None => r is None,
        },
{
    let nc = chars_of(name);
    if contains_chars(&nc, &chars_of("..")) {
        return None;
    }
    let pieces = split_chars(&nc, '/');
    let mut rest: Vec<Vec<char>> = Vec::new();
    let mut i: usize = skip;
    let ghost pv = pieces@.map_values(|p: Vec<char>| p@);
    let ghost want = if skip <= pv.len() { pv.skip(skip as int) } else { Seq::<Seq<char>>::empty() };
    if skip <= pieces.len() {
        while i < pieces.len()
            invariant
                skip <= i <= pieces@.len(),
                pv == pieces@.map_values(|p: Vec<char>| p@),
                rest@.map_values(|p: Vec<char>| p@) == pv.subrange(skip as int, i as int),
            decreases pieces@.len() - i,
        {
            let ghost before = rest@;
            let piece = slice_chars(&pieces[i], 0, pieces[i].len());
            assert(piece@ =~= pv[i as int]);
            rest.push(piece);
            assert(rest@.map_values(|p: Vec<char>| p@) =~= before.map_values(|p: Vec<char>| p@).push(piece@));
            i += 1;
            assert(rest@.map_values(|p: Vec<char>| p@) =~= pv.subrange(skip as int, i as int));
        }
        assert(pv.subrange(skip as int, pieces@.len() as int) =~= want);
    } else {
        assert(rest@.map_values(|p: Vec<char>| p@) =~= want);
    }
    let rel = join_chars(rest.as_slice(), &chars_of("/"));
    if rel.len() == 0 {
        None
    } else {
        Some(string_of(&rel))
    }
}

/// Is an unpacked file the llama-server binary (by its lowercased name)?
pub fn is_server_binary_name(file_name: &str) -> (b: bool)
    ensures
        b == (unicode_lowercase(file_name@) == "llama-server"@ || unicode_lowercase(file_name@)
            == "llama-server.exe"@),
{
    let lower = chars_of(to_lowercase(file_name).as_str());
    chars_equal(&lower, &chars_of("llama-server")) || chars_equal(&lower, &chars_of("llama-server.exe"))
}

} // verus!

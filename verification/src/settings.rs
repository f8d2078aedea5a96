//! Settings as the user edits them, normalised before they are stored, and
//! the facts shown on the settings page.

use vstd::prelude::*;
use crate::engine::download::{asset_pattern, asset_pattern_for, Platform};
use crate::engine::process::LlamaFlagSupport;
use crate::text::{ascii_lower, ascii_lower_chars, chars_equal, chars_of, decimal, decimal_chars, string_of, trim, trim_str, to_lowercase, unicode_lowercase};

verus! {

broadcast use vstd::string::group_string_axioms;

pub open spec fn opt_view(o: Option<String>) -> Option<Seq<char>> {
    match o {
        Some(s) => Some(s@),
        None => None,
    }
}

pub open spec fn strings_view(v: Seq<String>) -> Seq<Seq<char>> {
    v.map_values(|s: String| s@)
}

/// Where the API can be reached.
#[derive(Clone, Debug)]
pub struct ApiAccessInfo {
    pub bind_host: String,
    pub loopback_url: String,
    pub lan_host: Option<String>,
    pub lan_url: Option<String>,
}

/// A downloadable llama.cpp build and how it compares to what is installed.
#[derive(Clone, Debug)]
pub struct RuntimePackInfo {
    pub id: String,
    pub name: String,
    pub description: String,
    pub backend: String,
    pub installed_version: Option<String>,
    pub latest_version: Option<String>,
    pub update_available: bool,
    pub size_bytes: Option<u64>,
    pub available: bool,
    pub error: Option<String>,
}

/// The installed llama-server and what it supports.
#[derive(Clone, Debug)]
pub struct LlamaServerInfo {
    pub version: Option<String>,
    pub binary_path: Option<String>,
    pub has_managed_binary: bool,
    pub managed_dir: String,
    pub latest_version: Option<String>,
    pub update_available: bool,
    pub flag_support: LlamaFlagSupport,
}

fn concat(parts: &[&[char]]) -> (r: Vec<char>)
    ensures
        r@ == parts@.map_values(|p: &[char]| p@).fold_left(Seq::<char>::empty(), |acc: Seq<char>, p: Seq<char>| acc + p),
{
    let ghost views = parts@.map_values(|p: &[char]| p@);
    let mut r: Vec<char> = Vec::new();
    let mut i: usize = 0;
    assert(views.take(0) =~= Seq::<Seq<char>>::empty());
    while i < parts.len()
        invariant
            i <= parts.len(),
            views == parts@.map_values(|p: &[char]| p@),
            r@ == views.take(i as int).fold_left(Seq::<char>::empty(), |acc: Seq<char>, p: Seq<char>| acc + p),
        decreases parts.len() - i,
    {
        let p = parts[i];
        let ghost before = r@;
        let mut k: usize = 0;
        while k < p.len()
            invariant
                k <= p.len(),
                r@ == before + p@.take(k as int),
            decreases p.len() - k,
        {
            r.push(p[k]);
            k += 1;
            assert(r@ =~= before + p@.take(k as int));
        }
        assert(p@.take(k as int) =~= p@);
        assert(views.take(i + 1).drop_last() =~= views.take(i as int));
        assert(views[i as int] == p@);
        i += 1;
    }
    assert(views.take(i as int) =~= views);
    r
}

pub open spec fn api_url(host: Seq<char>, port: u16) -> Seq<char> {
    "http://"@ + host + ":"@ + decimal(port as nat) + "/v1"@
}

fn api_url_exec(host: &str, port: u16) -> (r: String)
    ensures
        r@ == api_url(host@, port),
{
    let a = chars_of("http://");
    let h = chars_of(host);
    let c = chars_of(":");
    let p = decimal_chars(port as u64);
    let s = chars_of("/v1");
    let parts: [&[char]; 5] = [a.as_slice(), h.as_slice(), c.as_slice(), p.as_slice(), s.as_slice()];
    let r = concat(&parts);
    proof {
        let v = parts@.map_values(|p: &[char]| p@);
        assert(v =~= seq![a@, h@, c@, p@, s@]);
        reveal_with_fuel(Seq::fold_left, 6);
        assert(v.take(0) =~= Seq::<Seq<char>>::empty());
    }
    assert(r@ =~= api_url(host@, port));
    string_of(&r)
}

/// The API's addresses: the loopback URL always, a LAN URL when the
/// machine has a LAN address.
pub fn api_access_info(bind_host: &str, port: u16, lan_host: Option<&str>) -> (a: ApiAccessInfo)
    ensures
        a.bind_host@ == bind_host@,
        a.loopback_url@ == api_url("127.0.0.1"@, port),
        opt_view(a.lan_host) == match lan_host {
            Some(h) => Some(h@),
            None => None,
        },
        opt_view(a.lan_url) == match lan_host {
            Some(h) => Some(api_url(h@, port)),
            None => None,
        },
{
    ApiAccessInfo {
        bind_host: bind_host.to_string(),
        loopback_url: api_url_exec("127.0.0.1", port),
        lan_host: match lan_host {
            Some(h) => Some(h.to_string()),
            None => None,
        },
        lan_url: match lan_host {
            Some(h) => Some(api_url_exec(h, port)),
            None => None,
        },
    }
}

// ---------------------------------------------------------------------------
// Runtime packs
// ---------------------------------------------------------------------------

/// The backends offered as runtime packs, with their names and descriptions.
pub open spec fn pack_catalog() -> Seq<(Seq<char>, Seq<char>, Seq<char>)> {
    seq![
        ("cuda"@, "CUDA llama.cpp (Windows)"@, "NVIDIA CUDA accelerated llama.cpp engine"@),
        ("cpu"@, "CPU llama.cpp (Windows)"@, "CPU-only llama.cpp engine"@),
    ]
}

/// The runtime packs offered: backend, name, description.
pub fn runtime_pack_catalog() -> (v: Vec<(&'static str, &'static str, &'static str)>)
    ensures
        v@.map_values(|t: (&str, &str, &str)| (t.0@, t.1@, t.2@)) == pack_catalog(),
{
    let v = vec![
        ("cuda", "CUDA llama.cpp (Windows)", "NVIDIA CUDA accelerated llama.cpp engine"),
        ("cpu", "CPU llama.cpp (Windows)", "CPU-only llama.cpp engine"),
    ];
    assert(v@.map_values(|t: (&str, &str, &str)| (t.0@, t.1@, t.2@)) =~= pack_catalog());
    v
}

/// A runtime pack entry from the release lookup's outcome: the newest
/// matching release with its size and whether it updates the installed
/// build, or the lookup's error.
pub fn runtime_pack_info(backend: &str, name: &str, description: &str, installed: Option<&str>, lookup: Result<(String, u64), String>) -> (p: RuntimePackInfo)
    ensures
        p.id@ == backend@,
        p.backend@ == backend@,
        p.name@ == name@,
        p.description@ == description@,
        opt_view(p.installed_version) == match installed {
            Some(v) => Some(v@),
            None => None,
        },
        match lookup {
            Ok((tag, size)) => {
                &&& opt_view(p.latest_version) == Some(tag@)
                &&& p.update_available == crate::engine::download::newer_release(
                    match installed {
                        Some(v) => Some(v@),
                        None => None,
                    },
                    tag@,
                )
                &&& p.size_bytes == Some(size)
                &&& p.available
                &&& p.error is None
            },
            Err(e) => {
                &&& p.latest_version is None
                &&& !p.update_available
                &&& p.size_bytes is None
                &&& !p.available
                &&& opt_view(p.error) == Some(e@)
            },
        },
{
    let installed_version = match installed {
        Some(v) => Some(v.to_string()),
        None => None,
    };
    match lookup {
        Ok((tag, size)) => {
            let update_available = crate::engine::download::release_is_newer(installed, tag.as_str());
            RuntimePackInfo {
                id: backend.to_string(),
                name: name.to_string(),
                description: description.to_string(),
                backend: backend.to_string(),
                installed_version,
                latest_version: Some(tag),
                update_available,
                size_bytes: Some(size),
                available: true,
                error: None,
            }
        },
        Err(e) => RuntimePackInfo {
            id: backend.to_string(),
            name: name.to_string(),
            description: description.to_string(),
            backend: backend.to_string(),
            installed_version,
            latest_version: None,
            update_available: false,
            size_bytes: None,
            available: false,
            error: Some(e),
        },
    }
}

/// The asset pattern for a requested build: `cuda`, or `cpu`/`avx2` (any
/// case); any other backend is refused.
pub open spec fn build_pattern(backend: Seq<char>, p: Platform) -> Result<Seq<char>, Seq<char>> {
    let b = unicode_lowercase(backend);
    if b == "cuda"@ {
        Ok(asset_pattern("cuda"@, p))
    } else if b == "cpu"@ || b == "avx2"@ {
        Ok(asset_pattern("cpu"@, p))
    } else {
        Err("Unknown backend: "@ + b + ". Use 'cuda' or 'cpu'."@)
    }
}

/// Pick the release asset pattern for a build download.
pub fn download_build_pattern(backend: &str, platform: Platform) -> (r: Result<String, String>)
    ensures
        match build_pattern(backend@, platform) {
            Ok(p) => r matches Ok(s) && s@ == p,
            Err(e) => r matches Err(m) && m@ == e,
        },
{
    let b = chars_of(&to_lowercase(backend));
    if chars_equal(&b, &chars_of("cuda")) {
        Ok(asset_pattern_for("cuda", platform))
    } else if chars_equal(&b, &chars_of("cpu")) || chars_equal(&b, &chars_of("avx2")) {
        Ok(asset_pattern_for("cpu", platform))
    } else {
        let head = chars_of("Unknown backend: ");
        let tail = chars_of(". Use 'cuda' or 'cpu'.");
        let parts: [&[char]; 3] = [head.as_slice(), b.as_slice(), tail.as_slice()];
        let msg = concat(&parts);
        proof {
            let v = parts@.map_values(|p: &[char]| p@);
            assert(v =~= seq![head@, b@, tail@]);
            reveal_with_fuel(Seq::fold_left, 4);
            assert(v.take(0) =~= Seq::<Seq<char>>::empty());
        }
        assert(msg@ =~= "Unknown backend: "@ + b@ + ". Use 'cuda' or 'cpu'."@);
        Err(string_of(&msg))
    }
}

// ---------------------------------------------------------------------------
// Normalising edited settings
// ---------------------------------------------------------------------------

/// The runtime that serves requests: an external provider only when it is
/// both chosen and enabled, the managed llama.cpp runtime otherwise.
pub open spec fn active_provider(requested: Seq<char>, lm_studio: bool, sglang: bool, openai: bool) -> Seq<char> {
    let r = trim(requested);
    if r == "lm_studio"@ && lm_studio {
        "lm_studio"@
    } else if r == "sglang"@ && sglang {
        "sglang"@
    } else if r == "openai"@ && openai {
        "openai"@
    } else {
        "managed_llamacpp"@
    }
}

/// Choose the active provider from the edited settings.
pub fn choose_active_provider(requested: &str, lm_studio_enabled: bool, sglang_enabled: bool, openai_enabled: bool) -> (r: String)
    ensures
        r@ == active_provider(requested@, lm_studio_enabled, sglang_enabled, openai_enabled),
{
    let t = trim_str(requested);
    if chars_equal(&t, &chars_of("lm_studio")) && lm_studio_enabled {
        "lm_studio".to_string()
    } else if chars_equal(&t, &chars_of("sglang")) && sglang_enabled {
        "sglang".to_string()
    } else if chars_equal(&t, &chars_of("openai")) && openai_enabled {
        "openai".to_string()
    } else {
        "managed_llamacpp".to_string()
    }
}

/// A key counts only when it is not blank; it is kept as typed.
pub fn non_blank_key(key: Option<String>) -> (r: Option<String>)
    ensures
        opt_view(r) == match opt_view(key) {
            Some(k) => if trim(k).len() > 0 { Some(k) } else { None },
            None => None,
        },
{
    match key {
        Some(k) => if trim_str(k.as_str()).len() > 0 {
            Some(k)
        } else {
            None
        },
        None => None,
    }
}

/// An optional text setting, trimmed, and dropped when blank.
pub fn trimmed_setting(value: Option<String>) -> (r: Option<String>)
    ensures
        opt_view(r) == match opt_view(value) {
            Some(v) => if trim(v).len() > 0 { Some(trim(v)) } else { None },
            None => None,
        },
{
    match value {
        Some(v) => {
            let t = trim_str(v.as_str());
            if t.len() > 0 {
                Some(string_of(&t))
            } else {
                None
            }
        },
        None => None,
    }
}

/// The trimmed, non-blank entries of a list, in order.
pub open spec fn trimmed_entries(v: Seq<Seq<char>>) -> Seq<Seq<char>>
    decreases v.len(),
{
    if v.len() == 0 {
        v
    } else {
        let prev = trimmed_entries(v.drop_last());
        if trim(v.last()).len() > 0 {
            prev.push(trim(v.last()))
        } else {
            prev
        }
    }
}

/// Trim extra arguments and drop the blank ones.
pub fn trimmed_args(args: &[String]) -> (r: Vec<String>)
    ensures
        strings_view(r@) == trimmed_entries(strings_view(args@)),
{
    let ghost av = strings_view(args@);
    let mut r: Vec<String> = Vec::new();
    let mut i: usize = 0;
    assert(av.take(0) =~= Seq::<Seq<char>>::empty());
    assert(strings_view(r@) =~= Seq::<Seq<char>>::empty());
    while i < args.len()
        invariant
            i <= args.len(),
            av == strings_view(args@),
            strings_view(r@) == trimmed_entries(av.take(i as int)),
        decreases args.len() - i,
    {
        assert(av.take(i + 1).drop_last() =~= av.take(i as int));
        assert(av.take(i + 1).last() == args@[i as int]@);
        let t = trim_str(args[i].as_str());
        if t.len() > 0 {
            let ghost before = strings_view(r@);
            r.push(string_of(&t));
            assert(strings_view(r@) =~= before.push(t@));
        }
        i += 1;
    }
    assert(av.take(i as int) =~= av);
    r
}

/// The diffusion KV-cache mode: `on` or `off` (trimmed, any ASCII case), or
/// `auto` for anything else.
pub open spec fn kv_cache_mode(raw: Seq<char>) -> Seq<char> {
    let v = ascii_lower(trim(raw));
    if v == "on"@ || v == "off"@ {
        v
    } else {
        "auto"@
    }
}

/// Normalise the diffusion KV-cache setting.
pub fn diffusion_kv_cache_mode(raw: &str) -> (r: String)
    ensures
        r@ == kv_cache_mode(raw@),
{
    let v = ascii_lower_chars(&trim_str(raw));
    if chars_equal(&v, &chars_of("on")) || chars_equal(&v, &chars_of("off")) {
        string_of(&v)
    } else {
        "auto".to_string()
    }
}

/// Whether saving settings restarts the API server, and whether it is
/// started again afterwards: it restarts when its address or key changed
/// and it was running or set to start by itself; it starts when it is set to
/// start by itself or was running.
pub fn api_restart_plan(address_or_key_changed: bool, api_was_active: bool, previous_autostart: bool, autostart: bool) -> (r: (bool, bool))
    ensures
        r.0 == (address_or_key_changed && (api_was_active || previous_autostart)),
        r.1 == (autostart || api_was_active),
{
    (address_or_key_changed && (api_was_active || previous_autostart), autostart || api_was_active)
}

/// Did the API's address or key change?
pub fn api_settings_changed(previous_host: &str, host: &str, previous_port: u16, port: u16, previous_key: Option<&str>, key: Option<&str>) -> (b: bool)
    ensures
        b == (previous_host@ != host@ || previous_port != port || match (previous_key, key) {
            (Some(a), Some(c)) => a@ != c@,
            (None, None) => false,
            _ => true,
        }),
{
    let hosts_differ = !chars_equal(&chars_of(previous_host), &chars_of(host));
    let keys_differ = match (previous_key, key) {
        (Some(a), Some(c)) => !chars_equal(&chars_of(a), &chars_of(c)),
        (None, None) => false,
        _ => true,
    };
    hosts_differ || previous_port != port || keys_differ
}

} // verus!

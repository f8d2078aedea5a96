//! Rules of the model download manager: job states, resuming over HTTP
//! ranges, clearing and restoring jobs.
//!
//! A job is identified by its source URL and moves through the statuses
//! `Starting`/`Resuming`, `Downloading`, `Retrying`, `Pausing`/`Paused`,
//! `Interrupted`, `Cancelling`/`Cancelled`, `Cleanup pending`, `Completed`
//! and `Failed`. The file system and network work is done by the caller;
//! this module decides.

use vstd::prelude::*;
use crate::text::{
    chars_equal, chars_of, concat_chars, index_of_char, index_of_char_exec, parse_u64, parse_u64_chars,
    slice_chars, split_on, starts_with, starts_with_chars, string_of, trim, trim_str,
    verbatim_prefixed, decimal, lemma_decimal_digits, lemma_parse_decimal, lemma_index_of_char, all_digits,
    is_ascii_digit, is_white_space, lead_ws, trail_ws,
};

verus! {

broadcast use vstd::string::group_string_axioms;

pub open spec fn opt_view(o: Option<String>) -> Option<Seq<char>> {
    match o {
        Some(s) => Some(s@),
        None => None,
    }
}

/// Progress and state of one download job. The fraction shown in the user
/// interface is derived from the byte counts and the status by the caller.
#[derive(Clone, Debug)]
pub struct DownloadProgress {
    pub id: String,
    pub filename: String,
    pub dest_path: Option<String>,
    pub partial_path: Option<String>,
    pub supports_vision: Option<bool>,
    pub repo_id: Option<String>,
    pub downloaded_bytes: u64,
    pub total_bytes: u64,
    pub speed_bps: Option<u64>,
    pub eta_seconds: Option<u64>,
    pub resumable: bool,
    pub attempt: u32,
    pub done: bool,
    pub status: String,
    pub error: Option<String>,
}

/// Outcome of matching local models to Hugging Face repositories.
#[derive(Clone, Copy, Debug)]
pub struct MetadataSyncSummary {
    pub scanned_models: usize,
    pub matched_models: usize,
    pub updated_models: usize,
}

/// Whether a Hugging Face token is configured and works.
#[derive(Clone, Debug)]
pub struct HubAccessStatus {
    pub configured: bool,
    pub reachable: bool,
    pub user: Option<String>,
    pub error: Option<String>,
}

/// Status of a job whose cancellation could not yet delete its partial file.
pub open spec fn cleanup_pending() -> Seq<char> {
    "Cleanup pending"@
}

fn is(s: &str, lit: &str) -> (b: bool)
    ensures
        b == (s@ == lit@),
{
    chars_equal(&chars_of(s), &chars_of(lit))
}

// ---------------------------------------------------------------------------
// HTTP ranges
// ---------------------------------------------------------------------------

/// A parsed `Content-Range` response header.
#[derive(Clone, Copy, Debug, PartialEq, Eq, Structural)]
pub enum ParsedContentRange {
    /// `bytes start-end/total`, with `*` for an unknown total.
    Satisfied { start: u64, end: u64, total: Option<u64> },
    /// `bytes */total`: the requested range lies past the end.
    Unsatisfied { total: u64 },
}

/// The header `bytes <range>/<total>` parsed, white space around it allowed.
#[verifier::opaque]
pub open spec fn content_range(value: Seq<char>) -> Option<ParsedContentRange> {
    let t = trim(value);
    if !starts_with(t, "bytes "@) {
        None
    } else {
        let rest = t.skip(6);
        match index_of_char(rest, '/') {
            None => None,
            Some(p) => {
                let range = rest.take(p);
                let total = rest.skip(p + 1);
                if range == "*"@ {
                    match parse_u64(total) {
                        Some(n) => Some(ParsedContentRange::Unsatisfied { total: n }),
                        None => None,
                    }
                } else {
                    match index_of_char(range, '-') {
                        None => None,
                        Some(q) => match (parse_u64(range.take(q)), parse_u64(range.skip(q + 1))) {
                            (Some(start), Some(end)) => if end < start {
                                None
                            } else if total == "*"@ {
                                Some(ParsedContentRange::Satisfied { start, end, total: None })
                            } else {
                                match parse_u64(total) {
                                    Some(n) => Some(ParsedContentRange::Satisfied { start, end, total: Some(n) }),
                                    None => None,
                                }
                            },
                            _ => None,
                        },
                    }
                }
            },
        }
    }
}

/// Parse a `Content-Range` header value.
pub fn parse_content_range(value: &str) -> (r: Option<ParsedContentRange>)
    ensures
        r == content_range(value@),
{
    let t = trim_str(value);
    proof {
        reveal(content_range);
        reveal_strlit("bytes ");
    }
    if !starts_with_chars(&t, &chars_of("bytes ")) {
        return None;
    }
    let rest = slice_chars(&t, 6, t.len());
    assert(rest@ =~= t@.skip(6));
    let p = match index_of_char_exec(&rest, '/') {
        None => {
            return None;
        },
        Some(p) => p,
    };
    proof {
        lemma_index_of_char_in_range(rest@, '/');
    }
    let range = slice_chars(&rest, 0, p);
    let total = slice_chars(&rest, p + 1, rest.len());
    assert(range@ =~= rest@.take(p as int));
    assert(total@ =~= rest@.skip(p + 1));
    let star = chars_of("*");
    if chars_equal(&range, &star) {
        return match parse_u64_chars(&total) {
            Some(n) => Some(ParsedContentRange::Unsatisfied { total: n }),
            None => None,
        };
    }
    let q = match index_of_char_exec(&range, '-') {
        None => {
            return None;
        },
        Some(q) => q,
    };
    proof {
        lemma_index_of_char_in_range(range@, '-');
    }
    let a = slice_chars(&range, 0, q);
    let b = slice_chars(&range, q + 1, range.len());
    assert(a@ =~= range@.take(q as int));
    assert(b@ =~= range@.skip(q + 1));
    let start = match parse_u64_chars(&a) {
        None => {
            return None;
        },
        Some(v) => v,
    };
    let end = match parse_u64_chars(&b) {
        None => {
            return None;
        },
        Some(v) => v,
    };
    if end < start {
        return None;
    }
    if chars_equal(&total, &star) {
        return Some(ParsedContentRange::Satisfied { start, end, total: None });
    }
    match parse_u64_chars(&total) {
        Some(n) => Some(ParsedContentRange::Satisfied { start, end, total: Some(n) }),
        None => None,
    }
}

proof fn lemma_index_of_char_in_range(s: Seq<char>, c: char)
    ensures
        index_of_char(s, c) matches Some(i) ==> 0 <= i < s.len(),
{
    crate::text::lemma_index_of_char(s, c);
}

/// A range answers a resume request: it is satisfied, starts where the
/// partial file ends, ends before the total (when one is given), and spans
/// exactly the response's length (when one is given).
pub open spec fn range_matches_resume(range: Option<ParsedContentRange>, expected_start: u64, content_length: Option<u64>) -> bool {
    match range {
        Some(ParsedContentRange::Satisfied { start, end, total }) => {
            &&& start == expected_start
            &&& match total {
                Some(t) => end < t,
                None => true,
            }
            &&& match content_length {
                Some(l) => l == end - start + 1,
                None => true,
            }
        },
        _ => false,
    }
}

/// Does the server's range continue the partial file?
pub fn content_range_matches_resume(range: Option<ParsedContentRange>, expected_start: u64, content_length: Option<u64>) -> (b: bool)
    requires
        range matches Some(ParsedContentRange::Satisfied { start, end, total }) ==> (start == expected_start
            && (match total {
                Some(t) => end < t,
                None => true,
            }) && content_length is Some ==> start <= end && end - start < u64::MAX),
    ensures
        b == range_matches_resume(range, expected_start, content_length),
{
    match range {
        Some(ParsedContentRange::Satisfied { start, end, total }) => {
            if start != expected_start {
                return false;
            }
            let total_ok = match total {
                Some(t) => end < t,
                None => true,
            };
            if !total_ok {
                return false;
            }
            match content_length {
                Some(l) => l == end - start + 1,
                None => true,
            }
        },
        _ => false,
    }
}

/// A parsed satisfied range always fits the resume check's arithmetic, and
/// only a range starting at the resume offset can match it.
pub proof fn lemma_parsed_range_resume(value: Seq<char>, expected_start: u64, content_length: Option<u64>)
    ensures
        content_range(value) matches Some(ParsedContentRange::Satisfied { start, end, total }) ==> start <= end,
        range_matches_resume(content_range(value), expected_start, content_length) ==> (content_range(
            value,
        ) matches Some(ParsedContentRange::Satisfied { start, .. }) && start == expected_start),
{
    reveal(content_range);
}

/// A text whose first and last characters are not white space is its own
/// trim.
proof fn lemma_trim_unpadded(v: Seq<char>)
    requires
        v.len() > 0,
        !is_white_space(v[0]),
        !is_white_space(v.last()),
    ensures
        trim(v) == v,
{
    assert(lead_ws(v) == 0);
    assert(v.skip(0) =~= v);
    assert(trail_ws(v) == 0);
    assert(v.take(v.len() as int) =~= v);
}

/// The first `c` in `a + seq![c] + b`, when `a` holds none, is right after
/// `a`.
proof fn lemma_first_char_after(a: Seq<char>, c: char, b: Seq<char>)
    requires
        !a.contains(c),
    ensures
        index_of_char(a + seq![c] + b, c) == Some(a.len() as int),
{
    let v = a + seq![c] + b;
    lemma_index_of_char(v, c);
    assert(v[a.len() as int] == c);
    match index_of_char(v, c) {
        Some(i) => {
            if i < a.len() {
                assert(a[i] == v[i]);
            }
        },
        None => {},
    }
}

/// A digit string holds neither `-` nor `/`.
proof fn lemma_digits_free_of_marks(d: Seq<char>)
    requires
        all_digits(d),
    ensures
        !d.contains('-'),
        !d.contains('/'),
{
    assert forall|i: int| 0 <= i < d.len() implies d[i] != '-' && d[i] != '/' by {
        assert(is_ascii_digit(d[i]));
    }
}

/// `bytes s-e/<tail>` for printed numbers `s <= e`: the range parsed back,
/// the total read from the tail.
#[verifier::rlimit(100)]
proof fn lemma_satisfied_range_text(s: u64, e: u64, tail: Seq<char>)
    requires
        s <= e,
        tail.len() > 0,
        tail.last() == '*' || is_ascii_digit(tail.last()),
    ensures
        content_range("bytes "@ + decimal(s as nat) + "-"@ + decimal(e as nat) + "/"@ + tail) == (if tail
            == "*"@ {
            Some(ParsedContentRange::Satisfied { start: s, end: e, total: None })
        } else {
            match parse_u64(tail) {
                Some(n) => Some(ParsedContentRange::Satisfied { start: s, end: e, total: Some(n) }),
                None => None,
            }
        }),
{
    reveal(content_range);
    reveal_strlit("bytes ");
    reveal_strlit("-");
    reveal_strlit("/");
    reveal_strlit("*");
    let ds = decimal(s as nat);
    let de = decimal(e as nat);
    lemma_decimal_digits(s as nat);
    lemma_decimal_digits(e as nat);
    lemma_parse_decimal(s);
    lemma_parse_decimal(e);
    lemma_digits_free_of_marks(ds);
    lemma_digits_free_of_marks(de);
    let head = "bytes "@;
    assert(head =~= seq!['b', 'y', 't', 'e', 's', ' ']);
    assert("-"@ =~= seq!['-']);
    assert("/"@ =~= seq!['/']);
    let range = ds + seq!['-'] + de;
    assert(range != "*"@) by {
        assert(range.len() >= 3);
    }
    lemma_first_char_after(ds, '-', de);
    assert(range.take(ds.len() as int) =~= ds);
    assert(range.skip(ds.len() as int + 1) =~= de);
    assert(!range.contains('/')) by {
        assert forall|i: int| 0 <= i < range.len() implies range[i] != '/' by {
            if i < ds.len() {
                assert(range[i] == ds[i]);
            } else if i > ds.len() {
                assert(range[i] == de[i - ds.len() - 1]);
            }
        }
    }
    let v = head + ds + "-"@ + de + "/"@ + tail;
    let rest = range + seq!['/'] + tail;
    assert(v =~= head + rest);
    assert(v.skip(6) =~= rest);
    assert(v.subrange(0, 6) =~= head);
    assert(v.last() == tail.last());
    lemma_trim_unpadded(v);
    lemma_first_char_after(range, '/', tail);
    assert(rest.take(range.len() as int) =~= range);
    assert(rest.skip(range.len() as int + 1) =~= tail);
}

/// `bytes */t` for a printed number `t`: an unsatisfied range with that
/// total.
#[verifier::rlimit(100)]
proof fn lemma_unsatisfied_range_text(t: u64)
    ensures
        content_range("bytes */"@ + decimal(t as nat)) == Some(ParsedContentRange::Unsatisfied { total: t }),
{
    reveal(content_range);
    reveal_strlit("bytes ");
    reveal_strlit("bytes */");
    reveal_strlit("*");
    let dt = decimal(t as nat);
    lemma_decimal_digits(t as nat);
    lemma_parse_decimal(t);
    assert(is_ascii_digit(dt.last()));
    let head = "bytes "@;
    assert(head =~= seq!['b', 'y', 't', 'e', 's', ' ']);
    let v = "bytes */"@ + dt;
    let rest = seq!['*'] + seq!['/'] + dt;
    assert("bytes */"@ =~= head + seq!['*', '/']);
    assert(v =~= head + rest);
    assert(v.skip(6) =~= rest);
    assert(v.subrange(0, 6) =~= head);
    assert(v.last() == dt.last());
    lemma_trim_unpadded(v);
    lemma_first_char_after(seq!['*'], '/', dt);
    assert(rest.take(1) =~= "*"@);
    assert(rest.skip(2) =~= dt);
}

/// A `Content-Range` value printed from numbers parses back to them:
/// `bytes s-e/t` gives `s`, `e` and the total `t`, `bytes s-e/*` gives no
/// total, and `bytes */t` an unsatisfied range with total `t`.
pub proof fn lemma_content_range_round_trip(s: u64, e: u64, t: u64)
    requires
        s <= e,
    ensures
        content_range("bytes "@ + decimal(s as nat) + "-"@ + decimal(e as nat) + "/"@ + decimal(t as nat))
            == Some(ParsedContentRange::Satisfied { start: s, end: e, total: Some(t) }),
        content_range("bytes "@ + decimal(s as nat) + "-"@ + decimal(e as nat) + "/*"@)
            == Some(ParsedContentRange::Satisfied { start: s, end: e, total: None }),
        content_range("bytes */"@ + decimal(t as nat)) == Some(ParsedContentRange::Unsatisfied { total: t }),
{
    let dt = decimal(t as nat);
    let pre = "bytes "@ + decimal(s as nat) + "-"@ + decimal(e as nat);
    assert(content_range(pre + "/"@ + dt) == Some(ParsedContentRange::Satisfied { start: s, end: e, total: Some(t) }))
        by {
        reveal_strlit("*");
        lemma_decimal_digits(t as nat);
        lemma_parse_decimal(t);
        assert(is_ascii_digit(dt[0]) && is_ascii_digit(dt.last()));
        assert(dt != "*"@) by {
            assert(is_ascii_digit(dt[0]));
        }
        lemma_satisfied_range_text(s, e, dt);
    }
    assert(content_range(pre + "/*"@) == Some(ParsedContentRange::Satisfied { start: s, end: e, total: None })) by {
        reveal_strlit("/");
        reveal_strlit("/*");
        reveal_strlit("*");
        lemma_satisfied_range_text(s, e, "*"@);
        assert(pre + "/*"@ =~= pre + "/"@ + "*"@);
    }
    lemma_unsatisfied_range_text(t);
}

// ---------------------------------------------------------------------------
// Job states
// ---------------------------------------------------------------------------

/// Seconds left at `speed_bps`, at least one, when there is something left
/// and a known total and speed.
pub open spec fn eta(downloaded: u64, total: u64, speed: u64) -> Option<u64> {
    if total == 0 || speed == 0 || downloaded >= total {
        None
    } else {
        let s = (total - downloaded) as nat / speed as nat;
        Some(if s >= 1 { s as u64 } else { 1 })
    }
}

/// Estimated seconds to finish a download.
pub fn estimate_eta_seconds(downloaded: u64, total: u64, speed_bps: u64) -> (r: Option<u64>)
    ensures
        r == eta(downloaded, total, speed_bps),
{
    if total == 0 || speed_bps == 0 || downloaded >= total {
        return None;
    }
    let s = (total - downloaded) / speed_bps;
    Some(if s >= 1 { s } else { 1 })
}

/// Statuses of a job that was running when the application stopped.
pub open spec fn auto_resume_status(status: Seq<char>) -> bool {
    status == "Starting"@ || status == "Resuming"@ || status == "Downloading"@ || status == "Retrying"@
        || status == "Interrupted"@
}

/// Should a job in this status resume by itself after a restart?
pub fn should_auto_resume_status(status: &str) -> (b: bool)
    ensures
        b == auto_resume_status(status@),
{
    is(status, "Starting") || is(status, "Resuming") || is(status, "Downloading") || is(status, "Retrying")
        || is(status, "Interrupted")
}

/// Jobs that survive "clear finished": unfinished ones, failed ones that
/// can still resume, and those whose cleanup is pending.
pub open spec fn kept_after_clear(p: DownloadProgress) -> bool {
    !p.done || (p.status@ == "Failed"@ && p.resumable) || p.status@ == cleanup_pending()
}

/// Does a job stay in the list when finished jobs are cleared?
pub fn retain_download_after_clear(progress: &DownloadProgress) -> (b: bool)
    ensures
        b == kept_after_clear(*progress),
{
    !progress.done || (is(progress.status.as_str(), "Failed") && progress.resumable) || is(
        progress.status.as_str(),
        "Cleanup pending",
    )
}

/// Clearing finished jobs never drops a job that is still under way.
pub proof fn lemma_clear_keeps_unfinished(p: DownloadProgress)
    requires
        !p.done,
    ensures
        kept_after_clear(p),
{
}

/// What cancelling a job takes.
#[derive(Clone, Copy, Debug, PartialEq, Eq, Structural)]
pub enum CancelPlan {
    /// The job is finished and not resumable: nothing to do.
    Nothing,
    /// The job is stopped with a partial file on disk: signal it, mark it
    /// `Cancelling`, then discard the partial.
    DiscardPartial,
    /// The job is running: signal it and mark it `Cancelling`; the running
    /// download finishes the cancellation.
    SignalRunning,
}

pub open spec fn cancel_plan_for(p: DownloadProgress) -> CancelPlan {
    let failed_resumable = p.status@ == "Failed"@ && p.resumable;
    if p.done && !failed_resumable {
        CancelPlan::Nothing
    } else if p.status@ == "Paused"@ || p.status@ == "Interrupted"@ || p.status@ == cleanup_pending()
        || failed_resumable {
        CancelPlan::DiscardPartial
    } else {
        CancelPlan::SignalRunning
    }
}

/// How to cancel a job in its current state.
pub fn cancel_plan(progress: &DownloadProgress) -> (c: CancelPlan)
    ensures
        c == cancel_plan_for(*progress),
{
    let st = progress.status.as_str();
    let failed_resumable = is(st, "Failed") && progress.resumable;
    if progress.done && !failed_resumable {
        CancelPlan::Nothing
    } else if is(st, "Paused") || is(st, "Interrupted") || is(st, "Cleanup pending") || failed_resumable {
        CancelPlan::DiscardPartial
    } else {
        CancelPlan::SignalRunning
    }
}

/// What pausing a job did.
#[derive(Clone, Copy, Debug, PartialEq, Eq, Structural)]
pub enum PauseOutcome {
    /// Finished, already paused, or awaiting cleanup: left as it was.
    Unchanged,
    /// An interrupted job is now `Paused`.
    Paused,
    /// A running job is now `Pausing`; its download must be signalled.
    Pausing,
}

/// Pause a job: a finished, paused or cleanup-pending job is left alone; an
/// interrupted one becomes `Paused` with its error cleared; a running one
/// becomes `Pausing`.
pub fn pause_job(progress: &mut DownloadProgress) -> (o: PauseOutcome)
    ensures
        (old(progress).done || old(progress).status@ == "Paused"@ || old(progress).status@ == cleanup_pending())
            ==> o == PauseOutcome::Unchanged && *final(progress) == *old(progress),
        !(old(progress).done || old(progress).status@ == "Paused"@ || old(progress).status@ == cleanup_pending())
            ==> {
            if old(progress).status@ == "Interrupted"@ {
                &&& o == PauseOutcome::Paused
                &&& final(progress).status@ == "Paused"@
                &&& final(progress).error is None
            } else {
                &&& o == PauseOutcome::Pausing
                &&& final(progress).status@ == "Pausing"@
                &&& final(progress).error == old(progress).error
            }
        },
        final(progress).id == old(progress).id,
        final(progress).done == old(progress).done,
        final(progress).downloaded_bytes == old(progress).downloaded_bytes,
        final(progress).partial_path == old(progress).partial_path,
{
    if progress.done || is(progress.status.as_str(), "Paused") || is(progress.status.as_str(), "Cleanup pending") {
        return PauseOutcome::Unchanged;
    }
    if is(progress.status.as_str(), "Interrupted") {
        progress.status = "Paused".to_string();
        progress.error = None;
        PauseOutcome::Paused
    } else {
        progress.status = "Pausing".to_string();
        PauseOutcome::Pausing
    }
}

/// A Hugging Face access status when no token is configured: nothing to
/// check, and the public API counts as reachable.
pub fn hub_access_without_token() -> (s: HubAccessStatus)
    ensures
        !s.configured,
        s.reachable,
        s.user is None,
        s.error is None,
{
    HubAccessStatus { configured: false, reachable: true, user: None, error: None }
}

/// The configured token, trimmed, unless it is blank.
pub fn effective_token(key: Option<&str>) -> (r: Option<String>)
    ensures
        opt_view(r) == match key {
            Some(k) => if trim(k@).len() > 0 { Some(trim(k@)) } else { None },
            None => None,
        },
{
    match key {
        None => None,
        Some(k) => {
            let t = trim_str(k);
            if t.len() > 0 {
                Some(string_of(&t))
            } else {
                None
            }
        },
    }
}

// ---------------------------------------------------------------------------
// Relative model paths
// ---------------------------------------------------------------------------

/// A component of a path, as the platform splits it.
#[derive(Clone, Debug)]
pub enum PathPart {
    Normal(String),
    CurDir,
    ParentDir,
    RootDir,
    Prefix,
}

/// What holds of a component on every platform: a normal component is a
/// non-empty piece of the path, without `/` unless the path has a verbatim
/// prefix.
pub open spec fn part_is_plain(p: PathPart, path: Seq<char>) -> bool {
    match p {
        PathPart::Normal(s) => s@.len() > 0 && crate::text::contains_seq(path, s@) && (
        !verbatim_prefixed(path) ==> !s@.contains('/')),
        _ => true,
    }
}

/// A path that every platform splits alike: no `\` and no `:`, so no drive,
/// verbatim or network prefix, and `/` the only separator.
pub open spec fn portable_path(path: Seq<char>) -> bool {
    !path.contains('\\') && !path.contains(':')
}

/// The pieces between `/`s, empty ones and `.` dropped; `None` as soon as a
/// `..` appears.
pub open spec fn relative_pieces(pieces: Seq<Seq<char>>) -> Option<Seq<Seq<char>>>
    decreases pieces.len(),
{
    if pieces.len() == 0 {
        Some(seq![])
    } else {
        match relative_pieces(pieces.drop_last()) {
            None => None,
            Some(prev) => {
                let p = pieces.last();
                if p == seq!['.', '.'] {
                    None
                } else if p.len() == 0 || p == seq!['.'] {
                    Some(prev)
                } else {
                    Some(prev.push(p))
                }
            },
        }
    }
}

/// The named components of a portable path, `.` skipped: `None` when it
/// starts at the root or climbs with `..`.
pub open spec fn relative_segments(path: Seq<char>) -> Option<Seq<Seq<char>>> {
    if path.len() > 0 && path[0] == '/' {
        None
    } else {
        relative_pieces(split_on(path, '/'))
    }
}

/// `Path::components` of a path given as text, each converted to a
/// `PathPart`. Which characters separate components, and what counts as a
/// root or a drive prefix, is the platform's. On every platform a normal
/// component is a non-empty piece of the path, without `/` unless the path
/// has a verbatim prefix; and a portable path (see `portable_path`) splits
/// at `/`, with a root first when it starts with `/`, `..` as a parent
/// step, and empty pieces and inner `.` left out, so that its named
/// components, up to the first root or parent step, are `relative_segments`.
#[verifier::external_body]
pub(crate) fn path_components(path: &str) -> (r: Vec<PathPart>)
    ensures
        forall|i: int| 0 <= i < r@.len() ==> part_is_plain(#[trigger] r@[i], path@),
        portable_path(path@) ==> plain_segments(r@) == relative_segments(path@),
{
    std::path::Path::new(path).components().map(|c| match c {
        std::path::Component::Normal(s) => PathPart::Normal(s.to_string_lossy().to_string()),
        std::path::Component::CurDir => PathPart::CurDir,
        std::path::Component::ParentDir => PathPart::ParentDir,
        std::path::Component::RootDir => PathPart::RootDir,
        std::path::Component::Prefix(_) => PathPart::Prefix,
    }).collect()
}

/// The normal components of a path, `.` skipped; `None` as soon as a
/// parent, root or drive component appears.
pub open spec fn plain_segments(parts: Seq<PathPart>) -> Option<Seq<Seq<char>>>
    decreases parts.len(),
{
    if parts.len() == 0 {
        Some(seq![])
    } else {
        match plain_segments(parts.drop_last()) {
            None => None,
            Some(prev) => match parts.last() {
                PathPart::Normal(s) => Some(prev.push(s@)),
                PathPart::CurDir => Some(prev),
                _ => None,
            },
        }
    }
}

/// A relative path inside the models folder from its components: refused
/// when it climbs out or is absolute, or when nothing is left.
pub fn sanitize_path_parts(parts: &[PathPart], filename: &str) -> (r: Result<Vec<String>, String>)
    ensures
        match plain_segments(parts@) {
            None => r matches Err(e) && e@ == "Invalid model path from Hugging Face: "@ + filename@,
            Some(segs) => if segs.len() == 0 {
                r matches Err(e) && e@ == "Hugging Face returned an empty model path"@
            } else {
                r matches Ok(v) && v@.map_values(|s: String| s@) == segs
            },
        },
{
    let mut out: Vec<String> = Vec::new();
    let mut i: usize = 0;
    assert(parts@.take(0) =~= Seq::<PathPart>::empty());
    assert(out@.map_values(|s: String| s@) =~= Seq::<Seq<char>>::empty());
    while i < parts.len()
        invariant
            i <= parts.len(),
            plain_segments(parts@.take(i as int)) == Some(out@.map_values(|s: String| s@)),
        decreases parts.len() - i,
    {
        assert(parts@.take(i + 1).drop_last() =~= parts@.take(i as int));
        assert(parts@.take(i + 1).last() == parts@[i as int]);
        match &parts[i] {
            PathPart::Normal(seg) => {
                let ghost before = out@.map_values(|s: String| s@);
                out.push(seg.clone());
                assert(out@.map_values(|s: String| s@) =~= before.push(seg@));
            },
            PathPart::CurDir => {},
            _ => {
                proof {
                    lemma_plain_segments_stays_none(parts@, i as int + 1);
                }
                let mut msg = chars_of("Invalid model path from Hugging Face: ");
                let f = chars_of(filename);
                let mut k: usize = 0;
                let ghost m0 = msg@;
                while k < f.len()
                    invariant
                        k <= f.len(),
                        msg@ == m0 + f@.take(k as int),
                    decreases f.len() - k,
                {
                    msg.push(f[k]);
                    k += 1;
                    assert(msg@ =~= m0 + f@.take(k as int));
                }
                assert(f@.take(k as int) =~= f@);
                return Err(string_of(&msg));
            },
        }
        i += 1;
    }
    assert(parts@.take(i as int) =~= parts@);
    if out.len() == 0 {
        return Err("Hugging Face returned an empty model path".to_string());
    }
    Ok(out)
}

proof fn lemma_plain_segments_stays_none(parts: Seq<PathPart>, k: int)
    requires
        0 <= k <= parts.len(),
        plain_segments(parts.take(k)) is None,
    ensures
        plain_segments(parts) is None,
    decreases parts.len() - k,
{
    if k < parts.len() {
        assert(parts.take(k + 1).drop_last() =~= parts.take(k));
        lemma_plain_segments_stays_none(parts, k + 1);
    } else {
        assert(parts.take(k) =~= parts);
    }
}

proof fn lemma_plain_segments_plain(parts: Seq<PathPart>, path: Seq<char>)
    requires
        forall|i: int| 0 <= i < parts.len() ==> part_is_plain(#[trigger] parts[i], path),
    ensures
        plain_segments(parts) matches Some(segs) ==> forall|j: int|
            0 <= j < segs.len() ==> (#[trigger] segs[j]).len() > 0 && crate::text::contains_seq(path, segs[j])
                && (!verbatim_prefixed(path) ==> !segs[j].contains('/')),
    decreases parts.len(),
{
    if parts.len() > 0 {
        let p = parts.drop_last();
        assert forall|i: int| 0 <= i < p.len() implies part_is_plain(#[trigger] p[i], path) by {
            assert(p[i] == parts[i]);
        }
        lemma_plain_segments_plain(p, path);
        assert(part_is_plain(parts[parts.len() - 1], path));
    }
}

/// The components of a relative model path from Hugging Face; refused when
/// it climbs out of the models folder, is absolute, or is empty. A portable
/// path (see `portable_path`) gives exactly its `relative_segments`; on any
/// path each component is a non-empty piece of it, without `/` unless the
/// path has a verbatim prefix.
pub fn sanitize_download_subpath(filename: &str) -> (r: Result<Vec<String>, String>)
    ensures
        portable_path(filename@) ==> match relative_segments(filename@) {
            None => r matches Err(e) && e@ == "Invalid model path from Hugging Face: "@ + filename@,
            Some(segs) => if segs.len() == 0 {
                r matches Err(e) && e@ == "Hugging Face returned an empty model path"@
            } else {
                r matches Ok(v) && v@.map_values(|s: String| s@) == segs
            },
        },
        r matches Ok(v) ==> v@.len() > 0 && forall|j: int| 0 <= j < v@.len() ==> (#[trigger] v@[j])@.len() > 0
            && crate::text::contains_seq(filename@, v@[j]@) && (!verbatim_prefixed(filename@)
            ==> !v@[j]@.contains('/')),
        r matches Err(e) ==> e@ == "Invalid model path from Hugging Face: "@ + filename@ || e@
            == "Hugging Face returned an empty model path"@,
{
    let parts = path_components(filename);
    proof {
        lemma_plain_segments_plain(parts@, filename@);
    }
    let r = sanitize_path_parts(parts.as_slice(), filename);
    proof {
        if let Ok(v) = &r {
            if let Some(segs) = plain_segments(parts@) {
                assert forall|j: int| 0 <= j < v@.len() implies (#[trigger] v@[j])@ == segs[j] by {
                    assert(v@.map_values(|s: String| s@)[j] == v@[j]@);
                }
            }
        }
    }
    r
}

/// `path` with `suffix` appended to its last component, as text: the
/// `.next` and `.bak` copies of the manifest lie beside it this way.
pub fn manifest_sibling(path: &str, suffix: &str) -> (r: String)
    ensures
        r@ == path@ + suffix@,
{
    string_of(&concat_chars(&chars_of(path), &chars_of(suffix)))
}

/// The `.part` file a download writes into before it is complete.
pub fn partial_path_for(dest_path: &str) -> (r: String)
    ensures
        r@ == dest_path@ + ".part"@,
{
    manifest_sibling(dest_path, ".part")
}

// ---------------------------------------------------------------------------
// Where a download may come from
// ---------------------------------------------------------------------------

/// What `reqwest::Url::parse` makes of a text: `None` when it is not an
/// absolute URL, else the URL's scheme and host.
pub uninterp spec fn url_scheme_and_host(raw: Seq<char>) -> Option<(Seq<char>, Option<Seq<char>>)>;

/// `reqwest::Url::parse` (the `url` crate's parser), then the parsed URL's
/// `scheme` and `host_str`. Claimed: the result depends on the text alone.
#[verifier::external_body]
fn parse_url_scheme_host(raw: &str) -> (r: Option<(String, Option<String>)>)
    ensures
        match url_scheme_and_host(raw@) {
            None => r is None,
            Some((scheme, host)) => r matches Some((rs, rh)) && rs@ == scheme && opt_view(rh) == host,
        },
{
    reqwest::Url::parse(raw).ok().map(|u| (u.scheme().to_string(), u.host_str().map(|h| h.to_string())))
}

/// Downloads are only taken from Hugging Face over HTTPS.
pub open spec fn trusted_download_url(raw: Seq<char>) -> bool {
    match url_scheme_and_host(raw) {
        Some((scheme, host)) => scheme == "https"@ && (host == Some("huggingface.co"@) || host == Some(
            "www.huggingface.co"@,
        )),
        None => false,
    }
}

/// Is this a Hugging Face download address: an absolute `https` URL on
/// `huggingface.co` or `www.huggingface.co`?
pub fn trusted_hugging_face_download_url(url: &str) -> (b: bool)
    ensures
        b == trusted_download_url(url@),
{
    match parse_url_scheme_host(url) {
        Some((scheme, host)) => {
            let https = chars_equal(&chars_of(scheme.as_str()), &chars_of("https"));
            let known = match &host {
                Some(h) => {
                    let hc = chars_of(h.as_str());
                    chars_equal(&hc, &chars_of("huggingface.co")) || chars_equal(&hc, &chars_of("www.huggingface.co"))
                },
                None => false,
            };
            https && known
        },
        None => false,
    }
}

} // verus!

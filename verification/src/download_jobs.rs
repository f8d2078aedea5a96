//! The life of one model download job, and restoring jobs after a restart.
//!
//! Admission decides whether a job may start (one writer per source and per
//! destination); each HTTP attempt's response is turned into a plan; the
//! end of the attempts into the job's outcome. On start-up each persisted
//! job is reconciled with what is on disk, and jobs that still claim the
//! same destination are failed. Requests, file operations and timing are
//! the caller's.

use vstd::prelude::*;
use crate::downloads::{
    auto_resume_status, cleanup_pending, content_range_matches_resume, estimate_eta_seconds, eta, opt_view, range_matches_resume,
    should_auto_resume_status, DownloadProgress, ParsedContentRange,
};
use crate::text::{chars_equal, chars_of, concat_chars, decimal, decimal_chars, string_of};

verus! {

broadcast use vstd::string::group_string_axioms;

fn same_text(s: &str, lit: &str) -> (b: bool)
    ensures
        b == (s@ == lit@),
{
    chars_equal(&chars_of(s), &chars_of(lit))
}

fn cat(a: &str, b: &str) -> (r: String)
    ensures
        r@ == a@ + b@,
{
    string_of(&concat_chars(&chars_of(a), &chars_of(b)))
}

fn cat3(a: &str, b: &str, c: &str) -> (r: String)
    ensures
        r@ == a@ + b@ + c@,
{
    string_of(&concat_chars(&concat_chars(&chars_of(a), &chars_of(b)), &chars_of(c)))
}

fn cat4(a: &str, b: &str, c: &str, d: &str) -> (r: String)
    ensures
        r@ == a@ + b@ + c@ + d@,
{
    string_of(&concat_chars(&concat_chars(&concat_chars(&chars_of(a), &chars_of(b)), &chars_of(c)), &chars_of(d)))
}

fn dec(n: u64) -> (r: String)
    ensures
        r@ == decimal(n as nat),
{
    string_of(&decimal_chars(n))
}

// ---------------------------------------------------------------------------
// A job's progress as a value
// ---------------------------------------------------------------------------

pub ghost struct ProgressModel {
    pub id: Seq<char>,
    pub filename: Seq<char>,
    pub dest_path: Option<Seq<char>>,
    pub partial_path: Option<Seq<char>>,
    pub supports_vision: Option<bool>,
    pub repo_id: Option<Seq<char>>,
    pub downloaded_bytes: u64,
    pub total_bytes: u64,
    pub speed_bps: Option<u64>,
    pub eta_seconds: Option<u64>,
    pub resumable: bool,
    pub attempt: u32,
    pub done: bool,
    pub status: Seq<char>,
    pub error: Option<Seq<char>>,
}

impl View for DownloadProgress {
    type V = ProgressModel;

    open spec fn view(&self) -> ProgressModel {
        ProgressModel {
            id: self.id@,
            filename: self.filename@,
            dest_path: opt_view(self.dest_path),
            partial_path: opt_view(self.partial_path),
            supports_vision: self.supports_vision,
            repo_id: opt_view(self.repo_id),
            downloaded_bytes: self.downloaded_bytes,
            total_bytes: self.total_bytes,
            speed_bps: self.speed_bps,
            eta_seconds: self.eta_seconds,
            resumable: self.resumable,
            attempt: self.attempt,
            done: self.done,
            status: self.status@,
            error: opt_view(self.error),
        }
    }
}

fn clone_opt(o: &Option<String>) -> (r: Option<String>)
    ensures
        opt_view(r) == opt_view(*o),
{
    match o {
        Some(s) => Some(s.clone()),
        None => None,
    }
}

// ---------------------------------------------------------------------------
// Admission
// ---------------------------------------------------------------------------

/// Another job as admission sees it: whether its partial file exists and
/// the normalised key of its destination are found by the caller.
#[derive(Clone, Debug)]
pub struct DestinationHolder {
    pub id: String,
    pub filename: String,
    pub done: bool,
    pub resumable: bool,
    pub partial_exists: bool,
    pub dest_key: Option<String>,
}

/// A job other than `id` that still owns the destination `key`: unfinished,
/// or resumable with its partial file on disk.
pub open spec fn holds_destination(h: DestinationHolder, id: Seq<char>, key: Seq<char>) -> bool {
    &&& h.id@ != id
    &&& (!h.done || (h.resumable && h.partial_exists))
    &&& h.dest_key matches Some(k) && k@ == key
}

/// Why a job may not be claimed, apart from a destination owned by another
/// job: an auto-resume whose job is no longer interrupted, or the same job
/// already running.
pub open spec fn claim_problem(startup_resume: bool, existing: Option<ProgressModel>) -> Option<Seq<char>> {
    if startup_resume && !(existing matches Some(e) && e.status == "Interrupted"@) {
        Some("Interrupted download state changed before auto-resume."@)
    } else if existing matches Some(e) && !e.done && e.status != "Paused"@ && e.status != "Interrupted"@ {
        Some("Download already in progress for "@ + existing->0.filename)
    } else {
        None
    }
}

/// Which other jobs block a destination: never the job itself, nor one
/// aimed elsewhere or at no recorded destination, nor a finished one
/// without a resumable partial file; but any other unfinished job aimed at
/// it does, and so does a finished one still holding a resumable partial
/// file.
pub proof fn lemma_destination_holders(h: DestinationHolder, id: Seq<char>, key: Seq<char>)
    ensures
        h.id@ == id ==> !holds_destination(h, id, key),
        h.dest_key is None || h.dest_key->0@ != key ==> !holds_destination(h, id, key),
        h.done && !(h.resumable && h.partial_exists) ==> !holds_destination(h, id, key),
        h.id@ != id && h.dest_key is Some && h.dest_key->0@ == key && !h.done ==> holds_destination(h, id, key),
        h.id@ != id && h.dest_key is Some && h.dest_key->0@ == key && h.resumable && h.partial_exists
            ==> holds_destination(h, id, key),
{
}

/// Outside start-up, a job's own record refuses a claim only while the job
/// really runs: with no record, or a record that is finished, paused or
/// interrupted, the job may be claimed (only another job holding the
/// destination can still refuse it); an unfinished record in any other
/// status refuses it as already in progress.
pub proof fn lemma_claim_outside_startup(existing: Option<ProgressModel>)
    ensures
        existing is None || existing->0.done || existing->0.status == "Paused"@ || existing->0.status
            == "Interrupted"@ ==> claim_problem(false, existing) is None,
        existing is Some && !existing->0.done && existing->0.status != "Paused"@ && existing->0.status
            != "Interrupted"@ ==> claim_problem(false, existing) == Some(
            "Download already in progress for "@ + existing->0.filename,
        ),
{
}

/// A start-up resume goes ahead only for a job still recorded as
/// interrupted; any other record, or none, refuses it.
pub proof fn lemma_claim_at_startup(existing: Option<ProgressModel>)
    ensures
        existing is Some && existing->0.status == "Interrupted"@ ==> claim_problem(true, existing) is None,
        !(existing is Some && existing->0.status == "Interrupted"@) ==> claim_problem(true, existing) == Some(
            "Interrupted download state changed before auto-resume."@,
        ),
{
}

pub open spec fn opt_progress(o: Option<&DownloadProgress>) -> Option<ProgressModel> {
    match o {
        Some(p) => Some(p@),
        None => None,
    }
}

/// May the job `download_id`, to the destination with key `dest_key`, start
/// now? `existing` is the job's current record, `holders` the other jobs.
pub fn check_download_claim(
    download_id: &str,
    startup_resume: bool,
    existing: Option<&DownloadProgress>,
    holders: &Vec<DestinationHolder>,
    dest_key: &str,
    dest_display: &str,
) -> (r: Result<(), String>)
    ensures
        match claim_problem(startup_resume, opt_progress(existing)) {
            Some(m) => r matches Err(e) && e@ == m,
            None => {
                &&& r is Ok <==> forall|i: int|
                    0 <= i < holders@.len() ==> !holds_destination(#[trigger] holders@[i], download_id@, dest_key@)
                &&& r matches Err(e) ==> exists|i: int|
                    0 <= i < holders@.len() && holds_destination(#[trigger] holders@[i], download_id@, dest_key@)
                        && e@ == "Another download ("@ + holders@[i].filename@ + ") already owns destination "@
                        + dest_display@
            },
        },
{
    if startup_resume {
        let interrupted = match existing {
            Some(e) => same_text(e.status.as_str(), "Interrupted"),
            None => false,
        };
        if !interrupted {
            return Err("Interrupted download state changed before auto-resume.".to_string());
        }
    }
    match existing {
        Some(e) => {
            if !e.done && !same_text(e.status.as_str(), "Paused") && !same_text(e.status.as_str(), "Interrupted") {
                return Err(cat("Download already in progress for ", e.filename.as_str()));
            }
        },
        None => {},
    }
    let mut i: usize = 0;
    while i < holders.len()
        invariant
            i <= holders@.len(),
            forall|j: int| 0 <= j < i ==> !holds_destination(#[trigger] holders@[j], download_id@, dest_key@),
            claim_problem(startup_resume, opt_progress(existing)) is None,
        decreases holders@.len() - i,
    {
        let h = &holders[i];
        let claims = !h.done || (h.resumable && h.partial_exists);
        let same_key = match &h.dest_key {
            Some(k) => same_text(k.as_str(), dest_key),
            None => false,
        };
        if !same_text(h.id.as_str(), download_id) && claims && same_key {
            assert(holds_destination(holders@[i as int], download_id@, dest_key@));
            let e = cat4("Another download (", h.filename.as_str(), ") already owns destination ", dest_display);
            assert(e@ == "Another download ("@ + holders@[i as int].filename@ + ") already owns destination "@
                + dest_display@);
            return Err(e);
        }
        i += 1;
    }
    Ok(())
}

// ---------------------------------------------------------------------------
// The records of a running job
// ---------------------------------------------------------------------------

/// What stays the same in every record of one job.
#[derive(Clone, Debug)]
pub struct DownloadJob {
    pub id: String,
    pub filename: String,
    pub dest_path: String,
    pub partial_path: String,
    pub supports_vision: Option<bool>,
    pub repo_id: Option<String>,
}

/// A record of `job` with the given figures.
pub open spec fn job_record(
    job: DownloadJob,
    dest: bool,
    partial: bool,
    downloaded: u64,
    total: u64,
    speed: Option<u64>,
    eta_s: Option<u64>,
    resumable: bool,
    attempt: u32,
    done: bool,
    status: Seq<char>,
    error: Option<Seq<char>>,
) -> ProgressModel {
    ProgressModel {
        id: job.id@,
        filename: job.filename@,
        dest_path: if dest { Some(job.dest_path@) } else { None },
        partial_path: if partial { Some(job.partial_path@) } else { None },
        supports_vision: job.supports_vision,
        repo_id: opt_view(job.repo_id),
        downloaded_bytes: downloaded,
        total_bytes: total,
        speed_bps: speed,
        eta_seconds: eta_s,
        resumable,
        attempt,
        done,
        status,
        error,
    }
}

impl DownloadJob {
    fn record(
        &self,
        dest: bool,
        partial: bool,
        downloaded: u64,
        total: u64,
        speed: Option<u64>,
        eta_s: Option<u64>,
        resumable: bool,
        attempt: u32,
        done: bool,
        status: String,
        error: Option<String>,
    ) -> (p: DownloadProgress)
        ensures
            p@ == job_record(*self, dest, partial, downloaded, total, speed, eta_s, resumable, attempt, done, status@, opt_view(error)),
    {
        DownloadProgress {
            id: self.id.clone(),
            filename: self.filename.clone(),
            dest_path: if dest { Some(self.dest_path.clone()) } else { None },
            partial_path: if partial { Some(self.partial_path.clone()) } else { None },
            supports_vision: self.supports_vision,
            repo_id: clone_opt(&self.repo_id),
            downloaded_bytes: downloaded,
            total_bytes: total,
            speed_bps: speed,
            eta_seconds: eta_s,
            resumable,
            attempt,
            done,
            status,
            error,
        }
    }

    /// The record a job starts with: resuming from a partial file of
    /// `resume_from` bytes if there is one, with the larger of that and the
    /// total known before.
    pub fn initial_progress(&self, resume_from: u64, known_total: Option<u64>) -> (p: DownloadProgress)
        ensures
            p@ == job_record(
                *self,
                true,
                true,
                resume_from,
                match known_total {
                    Some(t) => if t >= resume_from { t } else { resume_from },
                    None => resume_from,
                },
                None,
                None,
                resume_from > 0,
                1,
                false,
                if resume_from > 0 { "Resuming"@ } else { "Starting"@ },
                None,
            ),
    {
        let prior = match known_total {
            Some(t) => t,
            None => 0,
        };
        let total = if prior >= resume_from { prior } else { resume_from };
        let status = if resume_from > 0 { "Resuming".to_string() } else { "Starting".to_string() };
        self.record(true, true, resume_from, total, None, None, resume_from > 0, 1, false, status, None)
    }

    /// The record published while bytes arrive.
    pub fn running_progress(&self, downloaded: u64, total: u64, speed_bps: u64, attempt: u32) -> (p: DownloadProgress)
        ensures
            p@ == job_record(
                *self,
                true,
                true,
                downloaded,
                total,
                Some(speed_bps),
                eta(downloaded, total, speed_bps),
                true,
                attempt,
                false,
                if attempt > 1 { "Retrying"@ } else { "Downloading"@ },
                None,
            ),
    {
        let status = if attempt > 1 { "Retrying".to_string() } else { "Downloading".to_string() };
        let eta_s = estimate_eta_seconds(downloaded, total, speed_bps);
        self.record(true, true, downloaded, total, Some(speed_bps), eta_s, true, attempt, false, status, None)
    }

    /// The record published when an attempt fails and another follows.
    pub fn retrying_progress(&self, downloaded: u64, total: u64, speed_bps: u64, attempt: u32, error: Option<String>) -> (p: DownloadProgress)
        ensures
            p@ == job_record(
                *self,
                true,
                true,
                downloaded,
                total,
                Some(speed_bps),
                eta(downloaded, total, speed_bps),
                true,
                attempt,
                false,
                "Retrying"@,
                opt_view(error),
            ),
    {
        let eta_s = estimate_eta_seconds(downloaded, total, speed_bps);
        self.record(true, true, downloaded, total, Some(speed_bps), eta_s, true, attempt, false, "Retrying".to_string(), error)
    }

    /// The record of a stopped job: a paused one keeps its files and bytes;
    /// a cancelled one is done with neither.
    pub fn stopped_progress(&self, paused: bool, downloaded: u64, total: u64) -> (p: DownloadProgress)
        ensures
            p@ == job_record(
                *self,
                paused,
                paused,
                if paused { downloaded } else { 0 },
                total,
                None,
                None,
                paused,
                1,
                !paused,
                if paused { "Paused"@ } else { "Cancelled"@ },
                None,
            ),
    {
        let status = if paused { "Paused".to_string() } else { "Cancelled".to_string() };
        self.record(paused, paused, if paused { downloaded } else { 0 }, total, None, None, paused, 1, !paused, status, None)
    }

    /// The record of a cancelled job whose partial file could not be
    /// deleted; the deletion is retried on the next start.
    pub fn cleanup_pending_progress(&self, downloaded: u64, total: u64, delete_error: &str) -> (p: DownloadProgress)
        ensures
            p@ == job_record(
                *self,
                true,
                true,
                downloaded,
                total,
                None,
                None,
                false,
                1,
                false,
                cleanup_pending(),
                Some(
                    "Could not discard partial "@ + self.partial_path@ + ": "@ + delete_error@
                        + ". Cleanup will retry on next start."@,
                ),
            ),
    {
        let msg = string_of(
            &concat_chars(
                &concat_chars(&concat_chars(&chars_of("Could not discard partial "), &chars_of(self.partial_path.as_str())), &chars_of(": ")),
                &concat_chars(&chars_of(delete_error), &chars_of(". Cleanup will retry on next start.")),
            ),
        );
        assert(msg@ =~= "Could not discard partial "@ + self.partial_path@ + ": "@ + delete_error@
            + ". Cleanup will retry on next start."@);
        self.record(true, true, downloaded, total, None, None, false, 1, false, "Cleanup pending".to_string(), Some(msg))
    }

    /// The record of a finished download, now at its destination.
    pub fn completed_progress(&self, downloaded: u64, total: u64) -> (p: DownloadProgress)
        ensures
            p@ == job_record(*self, true, false, downloaded, total, None, None, false, 1, true, "Completed"@, None),
    {
        self.record(true, false, downloaded, total, None, None, false, 1, true, "Completed".to_string(), None)
    }
}

// ---------------------------------------------------------------------------
// One attempt
// ---------------------------------------------------------------------------

/// `{:?}` of an optional parsed range, as it appears in messages.
pub open spec fn range_debug(r: Option<ParsedContentRange>) -> Seq<char> {
    match r {
        None => "None"@,
        Some(ParsedContentRange::Satisfied { start, end, total }) => "Some(Satisfied { start: "@ + decimal(
            start as nat,
        ) + ", end: "@ + decimal(end as nat) + ", total: "@ + match total {
            Some(t) => "Some("@ + decimal(t as nat) + ")"@,
            None => "None"@,
        } + " })"@,
        Some(ParsedContentRange::Unsatisfied { total }) => "Some(Unsatisfied { total: "@ + decimal(total as nat)
            + " })"@,
    }
}

fn range_debug_exec(r: Option<ParsedContentRange>) -> (s: String)
    ensures
        s@ == range_debug(r),
{
    match r {
        None => "None".to_string(),
        Some(ParsedContentRange::Satisfied { start, end, total }) => {
            let t = match total {
                Some(t) => cat3("Some(", dec(t).as_str(), ")"),
                None => "None".to_string(),
            };
            let head = cat4("Some(Satisfied { start: ", dec(start).as_str(), ", end: ", dec(end).as_str());
            cat3(head.as_str(), cat(", total: ", t.as_str()).as_str(), " })")
        },
        Some(ParsedContentRange::Unsatisfied { total }) => cat3("Some(Unsatisfied { total: ", dec(total).as_str(), " })"),
    }
}

/// What to do with the response to one attempt.
#[derive(Clone, Debug, PartialEq, Eq)]
pub enum ResponsePlan {
    /// The partial file already holds the whole download.
    AlreadyComplete { total: u64 },
    /// Delete the partial file, remember that it was reset, and try again.
    ResetPartial { reason: String },
    /// Stop trying: the download fails with this reason.
    Fail { reason: String },
    /// Wait and try again.
    RetryLater { reason: String },
    /// Write the body: into a fresh partial file (after deleting the old one
    /// when `restart`), or appended when `resumed`, counting from
    /// `downloaded` towards `total`.
    Stream { restart: bool, resumed: bool, downloaded: u64, total: u64 },
}

pub ghost enum PlanModel {
    AlreadyComplete(u64),
    ResetPartial(Seq<char>),
    Fail(Seq<char>),
    RetryLater(Seq<char>),
    Stream(bool, bool, u64, u64),
}

impl View for ResponsePlan {
    type V = PlanModel;

    open spec fn view(&self) -> PlanModel {
        match self {
            ResponsePlan::AlreadyComplete { total } => PlanModel::AlreadyComplete(*total),
            ResponsePlan::ResetPartial { reason } => PlanModel::ResetPartial(reason@),
            ResponsePlan::Fail { reason } => PlanModel::Fail(reason@),
            ResponsePlan::RetryLater { reason } => PlanModel::RetryLater(reason@),
            ResponsePlan::Stream { restart, resumed, downloaded, total } => PlanModel::Stream(
                *restart,
                *resumed,
                *downloaded,
                *total,
            ),
        }
    }
}

/// The plan for a response with HTTP `status` (shown as `status_text`) to
/// a request that resumed at `disk_resume` bytes.
pub open spec fn response_plan(
    disk_resume: u64,
    status: u16,
    status_text: Seq<char>,
    url: Seq<char>,
    range: Option<ParsedContentRange>,
    content_length: Option<u64>,
    reset_partial_once: bool,
) -> PlanModel {
    if disk_resume > 0 && status == 416 {
        if range == Some(ParsedContentRange::Unsatisfied { total: disk_resume }) {
            PlanModel::AlreadyComplete(disk_resume)
        } else {
            let reason = "Server rejected resume offset "@ + decimal(disk_resume as nat) + " with HTTP 416 ("@
                + range_debug(range) + ")"@;
            if reset_partial_once {
                PlanModel::Fail(reason)
            } else {
                PlanModel::ResetPartial(reason)
            }
        }
    } else if status == 206 && !range_matches_resume(range, disk_resume, content_length) {
        let reason = "Server returned an invalid Content-Range for resume offset "@ + decimal(disk_resume as nat)
            + ": "@ + range_debug(range);
        if disk_resume == 0 || reset_partial_once {
            PlanModel::Fail(reason)
        } else {
            PlanModel::ResetPartial(reason)
        }
    } else if !(disk_resume > 0 && status == 200) && !(200 <= status <= 299) {
        PlanModel::RetryLater("Server returned HTTP "@ + status_text + " for "@ + url)
    } else {
        let resumed = disk_resume > 0 && status == 206;
        let downloaded: u64 = if resumed { disk_resume } else { 0 };
        let total = match range {
            Some(ParsedContentRange::Satisfied { total: Some(t), .. }) => t,
            _ => match content_length {
                Some(l) => vstd::wrapping::u64_specs::wrapping_add(l, downloaded),
                None => downloaded,
            },
        };
        PlanModel::Stream(disk_resume > 0 && status == 200, resumed, downloaded, total)
    }
}

/// Decide what an attempt's response means. The expected total counts the
/// resumed bytes; the sum wraps as the release build computes it.
pub fn plan_response(
    disk_resume: u64,
    status: u16,
    status_text: &str,
    url: &str,
    range: Option<ParsedContentRange>,
    content_length: Option<u64>,
    reset_partial_once: bool,
) -> (p: ResponsePlan)
    requires
        range matches Some(ParsedContentRange::Satisfied { start, end, .. }) ==> start <= end && end - start
            < u64::MAX,
    ensures
        p@ == response_plan(disk_resume, status, status_text@, url@, range, content_length, reset_partial_once),
{
    if disk_resume > 0 && status == 416 {
        let complete = match range {
            Some(ParsedContentRange::Unsatisfied { total }) => total == disk_resume,
            _ => false,
        };
        if complete {
            return ResponsePlan::AlreadyComplete { total: disk_resume };
        }
        let reason = cat4(
            "Server rejected resume offset ",
            dec(disk_resume).as_str(),
            " with HTTP 416 (",
            cat(range_debug_exec(range).as_str(), ")").as_str(),
        );
        assert(reason@ =~= "Server rejected resume offset "@ + decimal(disk_resume as nat) + " with HTTP 416 ("@
            + range_debug(range) + ")"@);
        if reset_partial_once {
            return ResponsePlan::Fail { reason };
        }
        return ResponsePlan::ResetPartial { reason };
    }
    if status == 206 {
        let ok = content_range_matches_resume(range, disk_resume, content_length);
        if !ok {
            let reason = cat4(
                "Server returned an invalid Content-Range for resume offset ",
                dec(disk_resume).as_str(),
                ": ",
                range_debug_exec(range).as_str(),
            );
            if disk_resume == 0 || reset_partial_once {
                return ResponsePlan::Fail { reason };
            }
            return ResponsePlan::ResetPartial { reason };
        }
    }
    let restart = disk_resume > 0 && status == 200;
    if !restart && !(200 <= status && status <= 299) {
        return ResponsePlan::RetryLater { reason: cat4("Server returned HTTP ", status_text, " for ", url) };
    }
    let resumed = disk_resume > 0 && status == 206;
    let downloaded: u64 = if resumed { disk_resume } else { 0 };
    let total = match range {
        Some(ParsedContentRange::Satisfied { total: Some(t), .. }) => t,
        _ => match content_length {
            Some(l) => l.wrapping_add(downloaded),
            None => downloaded,
        },
    };
    ResponsePlan::Stream { restart, resumed, downloaded, total }
}

/// After an attempt's body: retry when it failed or the byte count does not
/// match a known total (with a size-mismatch error unless the attempt's own
/// error stands); `None` when the download is complete.
pub fn attempt_retry_error(attempt_failed: bool, downloaded: u64, total: u64, last_error: Option<String>) -> (r: Option<Option<String>>)
    ensures
        !(attempt_failed || (total > 0 && downloaded != total)) ==> r is None,
        attempt_failed ==> (r matches Some(e) && opt_view(e) == opt_view(last_error)),
        !attempt_failed && total > 0 && downloaded != total ==> (r matches Some(e) && opt_view(e) == Some(
            "Download size mismatch: "@ + decimal(downloaded as nat) + " of "@ + decimal(total as nat) + " bytes"@,
        )),
{
    if attempt_failed {
        return Some(last_error);
    }
    if total > 0 && downloaded != total {
        return Some(Some(size_mismatch(downloaded, total)));
    }
    None
}

fn size_mismatch(downloaded: u64, total: u64) -> (s: String)
    ensures
        s@ == "Download size mismatch: "@ + decimal(downloaded as nat) + " of "@ + decimal(total as nat) + " bytes"@,
{
    let a = cat4("Download size mismatch: ", dec(downloaded).as_str(), " of ", dec(total).as_str());
    cat(a.as_str(), " bytes")
}

/// How a job's attempts ended.
#[derive(Clone, Debug, PartialEq, Eq)]
pub enum DownloadEnd {
    Paused,
    Cancelled,
    Failed(String),
    Completed,
}

/// The outcome of the attempts: a stop request wins (a pause if the job
/// was pausing); then an unfinished download fails with the last error;
/// a byte count that misses a known total fails too.
pub fn download_end(
    cancelled: bool,
    pausing: bool,
    completed: bool,
    downloaded: u64,
    total: u64,
    last_error: Option<String>,
) -> (r: DownloadEnd)
    ensures
        cancelled ==> r == (if pausing { DownloadEnd::Paused } else { DownloadEnd::Cancelled }),
        !cancelled && !completed ==> (r matches DownloadEnd::Failed(m) && m@ == match last_error {
            Some(e) => e@,
            None => "Download failed after retries"@,
        }),
        !cancelled && completed && total > 0 && downloaded != total ==> (r matches DownloadEnd::Failed(m) && m@
            == match last_error {
            Some(e) => e@,
            None => "Download size mismatch: "@ + decimal(downloaded as nat) + " of "@ + decimal(total as nat)
                + " bytes"@,
        }),
        !cancelled && completed && !(total > 0 && downloaded != total) ==> r == DownloadEnd::Completed,
{
    if cancelled {
        return if pausing { DownloadEnd::Paused } else { DownloadEnd::Cancelled };
    }
    if !completed {
        return DownloadEnd::Failed(
            match last_error {
                Some(e) => e,
                None => "Download failed after retries".to_string(),
            },
        );
    }
    if total > 0 && downloaded != total {
        return DownloadEnd::Failed(
            match last_error {
                Some(e) => e,
                None => size_mismatch(downloaded, total),
            },
        );
    }
    DownloadEnd::Completed
}

// ---------------------------------------------------------------------------
// Restoring jobs after a restart
// ---------------------------------------------------------------------------

/// Statuses in which the user asked for a job to go away.
pub open spec fn cancel_status(status: Seq<char>) -> bool {
    status == "Cancelling"@ || status == "Cancelled"@ || status == cleanup_pending()
}

/// Must the partial file of a cancelled job be deleted while restoring?
pub fn restore_needs_cleanup(status: &str, partial_len: u64) -> (b: bool)
    ensures
        b == (cancel_status(status@) && partial_len > 0),
{
    (same_text(status, "Cancelling") || same_text(status, "Cancelled") || same_text(status, "Cleanup pending")) && partial_len > 0
}

/// A persisted job reconciled with the disk: its trusted destination and
/// partial paths, the destination's size if it exists, the partial's size
/// (0 when absent), and the error of deleting a cancelled job's partial.
pub open spec fn restored(
    p: ProgressModel,
    dest: Seq<char>,
    partial: Seq<char>,
    dest_len: Option<u64>,
    partial_len: u64,
    cleanup_error: Option<Seq<char>>,
) -> ProgressModel {
    let base = ProgressModel { dest_path: Some(dest), speed_bps: None, eta_seconds: None, ..p };
    if cancel_status(p.status) {
        match cleanup_error {
            Some(e) => ProgressModel {
                partial_path: Some(partial),
                downloaded_bytes: partial_len,
                resumable: false,
                done: false,
                status: cleanup_pending(),
                error: Some(
                    "Could not discard partial "@ + partial + ": "@ + e + ". Cleanup will retry on next start."@,
                ),
                ..base
            },
            None => ProgressModel {
                dest_path: None,
                partial_path: None,
                downloaded_bytes: 0,
                resumable: false,
                done: true,
                status: "Cancelled"@,
                error: None,
                ..base
            },
        }
    } else if dest_len matches Some(len) && partial_len == 0 && (p.status == "Completed"@ || (p.total_bytes > 0
        && p.total_bytes == len)) {
        ProgressModel {
            partial_path: None,
            downloaded_bytes: dest_len->0,
            total_bytes: if p.total_bytes >= dest_len->0 { p.total_bytes } else { dest_len->0 },
            resumable: false,
            done: true,
            status: "Completed"@,
            error: None,
            ..base
        }
    } else {
        let kept = ProgressModel {
            partial_path: Some(partial),
            downloaded_bytes: partial_len,
            total_bytes: if p.total_bytes >= partial_len { p.total_bytes } else { partial_len },
            resumable: partial_len > 0,
            ..base
        };
        if dest_len is Some && partial_len == 0 {
            ProgressModel {
                done: true,
                status: "Failed"@,
                error: Some("A destination file exists but its size does not match the interrupted download."@),
                ..kept
            }
        } else if auto_resume_status(p.status) {
            ProgressModel { done: false, status: "Interrupted"@, error: None, ..kept }
        } else if p.status == "Pausing"@ {
            ProgressModel { done: false, status: "Paused"@, error: None, ..kept }
        } else if p.status == "Paused"@ {
            ProgressModel { done: false, error: None, ..kept }
        } else if p.status == "Completed"@ {
            ProgressModel { done: true, status: "Failed"@, error: Some("Completed file is missing from disk."@), ..kept }
        } else {
            kept
        }
    }
}

/// Reconcile one persisted job with the disk. `cleanup_error` is the error
/// of deleting a cancelled job's partial file, if that was attempted and
/// failed.
pub fn restore_job(
    progress: DownloadProgress,
    dest_path: String,
    partial_path: String,
    dest_len: Option<u64>,
    partial_len: u64,
    cleanup_error: Option<String>,
) -> (r: DownloadProgress)
    ensures
        r@ == restored(progress@, dest_path@, partial_path@, dest_len, partial_len, opt_view(cleanup_error)),
{
    let mut p = progress;
    p.dest_path = Some(dest_path);
    p.speed_bps = None;
    p.eta_seconds = None;
    let st = p.status.clone();
    if same_text(st.as_str(), "Cancelling") || same_text(st.as_str(), "Cancelled") || same_text(st.as_str(), "Cleanup pending") {
        match cleanup_error {
            Some(e) => {
                let msg = string_of(
                    &concat_chars(
                        &concat_chars(&concat_chars(&chars_of("Could not discard partial "), &chars_of(partial_path.as_str())), &chars_of(": ")),
                        &concat_chars(&chars_of(e.as_str()), &chars_of(". Cleanup will retry on next start.")),
                    ),
                );
                assert(msg@ =~= "Could not discard partial "@ + partial_path@ + ": "@ + e@
                    + ". Cleanup will retry on next start."@);
                p.partial_path = Some(partial_path);
                p.downloaded_bytes = partial_len;
                p.resumable = false;
                p.done = false;
                p.status = "Cleanup pending".to_string();
                p.error = Some(msg);
            },
            None => {
                p.dest_path = None;
                p.partial_path = None;
                p.downloaded_bytes = 0;
                p.resumable = false;
                p.done = true;
                p.status = "Cancelled".to_string();
                p.error = None;
            },
        }
        return p;
    }
    let complete = match dest_len {
        Some(len) => partial_len == 0 && (same_text(st.as_str(), "Completed") || (p.total_bytes > 0 && p.total_bytes == len)),
        None => false,
    };
    if complete {
        let len = match dest_len {
            Some(l) => l,
            None => 0,
        };
        p.partial_path = None;
        p.downloaded_bytes = len;
        if p.total_bytes < len {
            p.total_bytes = len;
        }
        p.resumable = false;
        p.done = true;
        p.status = "Completed".to_string();
        p.error = None;
        return p;
    }
    p.partial_path = Some(partial_path);
    p.downloaded_bytes = partial_len;
    if p.total_bytes < partial_len {
        p.total_bytes = partial_len;
    }
    p.resumable = partial_len > 0;
    if dest_len.is_some() && partial_len == 0 {
        p.done = true;
        p.status = "Failed".to_string();
        p.error = Some("A destination file exists but its size does not match the interrupted download.".to_string());
    } else if should_auto_resume_status(st.as_str()) {
        p.done = false;
        p.status = "Interrupted".to_string();
        p.error = None;
    } else if same_text(st.as_str(), "Pausing") {
        p.done = false;
        p.status = "Paused".to_string();
        p.error = None;
    } else if same_text(st.as_str(), "Paused") {
        p.done = false;
        p.error = None;
    } else if same_text(st.as_str(), "Completed") {
        p.done = true;
        p.status = "Failed".to_string();
        p.error = Some("Completed file is missing from disk.".to_string());
    }
    p
}

/// A reconciled job with its destination's normalised key and its
/// destination as shown in messages.
#[derive(Clone, Debug)]
pub struct RestoredJob {
    pub progress: DownloadProgress,
    pub dest_key: String,
    pub dest_display: String,
}

/// The restored jobs so far, and which job id owns each destination key.
pub ghost struct RestoreState {
    pub jobs: Seq<ProgressModel>,
    pub owners: Seq<(Seq<char>, Seq<char>)>,
}

/// The id owning a destination key.
pub open spec fn owner_of(owners: Seq<(Seq<char>, Seq<char>)>, key: Seq<char>) -> Option<Seq<char>>
    decreases owners.len(),
{
    if owners.len() == 0 {
        None
    } else if owners[0].0 == key {
        Some(owners[0].1)
    } else {
        owner_of(owners.drop_first(), key)
    }
}

/// Where the job with `id` stands among the restored jobs.
pub open spec fn index_of_id(jobs: Seq<ProgressModel>, id: Seq<char>) -> Option<int>
    decreases jobs.len(),
{
    if jobs.len() == 0 {
        None
    } else if jobs.last().id == id {
        match index_of_id(jobs.drop_last(), id) {
            Some(i) => Some(i),
            None => Some(jobs.len() - 1),
        }
    } else {
        index_of_id(jobs.drop_last(), id)
    }
}

pub open spec fn failed_with(m: ProgressModel, msg: Seq<char>) -> ProgressModel {
    ProgressModel { done: true, status: "Failed"@, error: Some(msg), ..m }
}

/// Add one reconciled job. A job that still claims its destination (not
/// done, or resumable) while another job owns it fails both, except that a
/// job whose cancellation cleanup is pending keeps its state; a later job
/// with the same id replaces the earlier one.
pub open spec fn restore_step(st: RestoreState, p: ProgressModel, key: Seq<char>, display: Seq<char>) -> RestoreState {
    let msg = "Multiple persisted sources target "@ + display + "; reselect the intended Hub file."@;
    let claims = !p.done || p.resumable;
    let owner = owner_of(st.owners, key);
    let ix = if claims && owner is Some { index_of_id(st.jobs, owner->0) } else { None };
    let jobs1 = match ix {
        Some(i) => if st.jobs[i].status == cleanup_pending() {
            st.jobs
        } else {
            st.jobs.update(i, failed_with(st.jobs[i], msg))
        },
        None => st.jobs,
    };
    let cur = match ix {
        Some(i) => if p.status != cleanup_pending() || st.jobs[i].status == cleanup_pending() {
            failed_with(p, msg)
        } else {
            p
        },
        None => p,
    };
    let owners1 = if claims && owner is None { st.owners.push((key, p.id)) } else { st.owners };
    let jobs2 = match index_of_id(jobs1, p.id) {
        Some(j) => jobs1.update(j, cur),
        None => jobs1.push(cur),
    };
    RestoreState { jobs: jobs2, owners: owners1 }
}

pub open spec fn restore_all(js: Seq<RestoredJob>) -> RestoreState
    decreases js.len(),
{
    if js.len() == 0 {
        RestoreState { jobs: seq![], owners: seq![] }
    } else {
        let last = js.last();
        restore_step(restore_all(js.drop_last()), last.progress@, last.dest_key@, last.dest_display@)
    }
}

pub open spec fn progress_views(v: Seq<DownloadProgress>) -> Seq<ProgressModel> {
    v.map_values(|p: DownloadProgress| p@)
}

pub open spec fn owner_views(v: Seq<(String, String)>) -> Seq<(Seq<char>, Seq<char>)> {
    v.map_values(|o: (String, String)| (o.0@, o.1@))
}

fn copy_progress(p: &DownloadProgress) -> (r: DownloadProgress)
    ensures
        r@ == p@,
{
    DownloadProgress {
        id: p.id.clone(),
        filename: p.filename.clone(),
        dest_path: clone_opt(&p.dest_path),
        partial_path: clone_opt(&p.partial_path),
        supports_vision: p.supports_vision,
        repo_id: clone_opt(&p.repo_id),
        downloaded_bytes: p.downloaded_bytes,
        total_bytes: p.total_bytes,
        speed_bps: p.speed_bps,
        eta_seconds: p.eta_seconds,
        resumable: p.resumable,
        attempt: p.attempt,
        done: p.done,
        status: p.status.clone(),
        error: clone_opt(&p.error),
    }
}

fn fail_progress(p: &DownloadProgress, msg: &String) -> (r: DownloadProgress)
    ensures
        r@ == failed_with(p@, msg@),
{
    let mut r = copy_progress(p);
    r.done = true;
    r.status = "Failed".to_string();
    r.error = Some(msg.clone());
    r
}

fn find_owner(owners: &Vec<(String, String)>, key: &str) -> (r: Option<usize>)
    ensures
        match r {
            Some(i) => i < owners@.len() && owner_of(owner_views(owners@), key@) == Some(owners@[i as int].1@),
            None => owner_of(owner_views(owners@), key@) is None,
        },
{
    let ghost ov = owner_views(owners@);
    let mut i: usize = 0;
    assert(ov.skip(0) =~= ov);
    while i < owners.len()
        invariant
            i <= owners@.len(),
            ov == owner_views(owners@),
            owner_of(ov, key@) == owner_of(ov.skip(i as int), key@),
        decreases owners@.len() - i,
    {
        assert(ov.skip(i as int)[0] == ov[i as int]);
        assert(ov.skip(i as int).drop_first() =~= ov.skip(i + 1));
        if same_text(owners[i].0.as_str(), key) {
            return Some(i);
        }
        i += 1;
    }
    None
}

proof fn lemma_index_of_id(jobs: Seq<ProgressModel>, id: Seq<char>)
    ensures
        match index_of_id(jobs, id) {
            Some(i) => 0 <= i < jobs.len() && jobs[i].id == id && forall|k: int| 0 <= k < i ==> jobs[k].id != id,
            None => forall|k: int| 0 <= k < jobs.len() ==> jobs[k].id != id,
        },
    decreases jobs.len(),
{
    if jobs.len() > 0 {
        lemma_index_of_id(jobs.drop_last(), id);
        assert(forall|k: int| 0 <= k < jobs.len() - 1 ==> jobs.drop_last()[k] == jobs[k]);
    }
}

proof fn lemma_index_of_id_char(jobs: Seq<ProgressModel>, id: Seq<char>, i: int)
    requires
        0 <= i < jobs.len(),
        jobs[i].id == id,
        forall|k: int| 0 <= k < i ==> jobs[k].id != id,
    ensures
        index_of_id(jobs, id) == Some(i),
{
    lemma_index_of_id(jobs, id);
}

fn find_id(jobs: &Vec<DownloadProgress>, id: &str) -> (r: Option<usize>)
    ensures
        r matches Some(i) ==> i < jobs@.len(),
        index_of_id(progress_views(jobs@), id@) == match r {
            Some(i) => Some(i as int),
            None => None::<int>,
        },
{
    let ghost pv = progress_views(jobs@);
    let mut i: usize = 0;
    while i < jobs.len()
        invariant
            i <= jobs@.len(),
            pv == progress_views(jobs@),
            forall|k: int| 0 <= k < i ==> pv[k].id != id@,
        decreases jobs@.len() - i,
    {
        if same_text(jobs[i].id.as_str(), id) {
            proof {
                lemma_index_of_id_char(pv, id@, i as int);
            }
            return Some(i);
        }
        i += 1;
    }
    proof {
        lemma_index_of_id(pv, id@);
        if index_of_id(pv, id@) is Some {
            assert(pv[index_of_id(pv, id@)->0].id == id@);
        }
    }
    None
}

/// Settle the jobs restored from the manifest, in manifest order: a job
/// with the id of an earlier one replaces it, and jobs that claim the same
/// destination are failed (see `restore_step`). The list keeps the first
/// position of each id; the order of the result carries no meaning.
pub fn resolve_restored_jobs(jobs: Vec<RestoredJob>) -> (r: Vec<DownloadProgress>)
    ensures
        progress_views(r@) == restore_all(jobs@).jobs,
{
    let mut out: Vec<DownloadProgress> = Vec::new();
    let mut owners: Vec<(String, String)> = Vec::new();
    let mut i: usize = 0;
    while i < jobs.len()
        invariant
            i <= jobs@.len(),
            progress_views(out@) == restore_all(jobs@.take(i as int)).jobs,
            owner_views(owners@) == restore_all(jobs@.take(i as int)).owners,
        decreases jobs@.len() - i,
    {
        let ghost st = restore_all(jobs@.take(i as int));
        proof {
            assert(jobs@.take(i + 1).drop_last() =~= jobs@.take(i as int));
            assert(jobs@.take(i + 1).last() == jobs@[i as int]);
        }
        let job = &jobs[i];
        let p = &job.progress;
        let msg = cat3("Multiple persisted sources target ", job.dest_display.as_str(), "; reselect the intended Hub file.");
        let claims = !p.done || p.resumable;
        let mut cur = copy_progress(p);
        if claims {
            match find_owner(&owners, job.dest_key.as_str()) {
                Some(oi) => {
                    let owner_id = owners[oi].1.clone();
                    match find_id(&out, owner_id.as_str()) {
                        Some(ix) => {
                            let ex_cleanup = same_text(out[ix].status.as_str(), "Cleanup pending");
                            let cur_cleanup = same_text(p.status.as_str(), "Cleanup pending");
                            if !ex_cleanup {
                                let failed = fail_progress(&out[ix], &msg);
                                let ghost before = out@;
                                out.set(ix, failed);
                                assert(progress_views(out@) =~= progress_views(before).update(
                                    ix as int,
                                    failed_with(progress_views(before)[ix as int], msg@),
                                ));
                            }
                            if !cur_cleanup || ex_cleanup {
                                cur = fail_progress(p, &msg);
                            }
                        },
                        None => {},
                    }
                },
                None => {
                    let ghost before = owners@;
                    owners.push((job.dest_key.clone(), p.id.clone()));
                    assert(owner_views(owners@) =~= owner_views(before).push((job.dest_key@, p.id@)));
                },
            }
        }
        let ghost mid = out@;
        match find_id(&out, p.id.as_str()) {
            Some(j) => {
                out.set(j, cur);
                assert(progress_views(out@) =~= progress_views(mid).update(j as int, cur@));
            },
            None => {
                out.push(cur);
                assert(progress_views(out@) =~= progress_views(mid).push(cur@));
            },
        }
        i += 1;
    }
    assert(jobs@.take(jobs@.len() as int) =~= jobs@);
    out
}

// ---------------------------------------------------------------------------
// Which manifest file to trust
// ---------------------------------------------------------------------------

/// The version of the job manifest this library reads and writes.
pub const DOWNLOAD_MANIFEST_VERSION: u32 = 1;

/// A manifest file that was read and parsed: when it was last modified,
/// and its priority (the `.next` file 3, the manifest itself 2, the `.bak`
/// file 1).
#[derive(Clone, Copy, Debug)]
pub struct ManifestCandidate {
    pub modified_secs: u64,
    pub modified_nanos: u32,
    pub priority: u8,
}

/// `a` is ordered at or before `b`: by modification time, then priority.
pub open spec fn candidate_le(a: ManifestCandidate, b: ManifestCandidate) -> bool {
    a.modified_secs < b.modified_secs || (a.modified_secs == b.modified_secs && (a.modified_nanos
        < b.modified_nanos || (a.modified_nanos == b.modified_nanos && a.priority <= b.priority)))
}

fn candidate_le_exec(a: &ManifestCandidate, b: &ManifestCandidate) -> (r: bool)
    ensures
        r == candidate_le(*a, *b),
{
    a.modified_secs < b.modified_secs || (a.modified_secs == b.modified_secs && (a.modified_nanos
        < b.modified_nanos || (a.modified_nanos == b.modified_nanos && a.priority <= b.priority)))
}

/// The manifest to trust among those that parsed: the most recently
/// modified, a higher priority breaking ties; of equal candidates, the last.
pub fn newest_manifest(candidates: &Vec<ManifestCandidate>) -> (r: Option<usize>)
    ensures
        r is None <==> candidates.len() == 0,
        r matches Some(i) ==> i < candidates.len() && (forall|j: int| 0 <= j < candidates.len()
            ==> candidate_le(#[trigger] candidates@[j], candidates@[i as int])) && (forall|j: int|
            i < j < candidates.len() ==> !candidate_le(candidates@[i as int], #[trigger] candidates@[j])),
{
    if candidates.len() == 0 {
        return None;
    }
    let mut best: usize = 0;
    let mut k: usize = 1;
    while k < candidates.len()
        invariant
            1 <= k <= candidates.len(),
            best < k,
            forall|j: int| 0 <= j < k ==> candidate_le(#[trigger] candidates@[j], candidates@[best as int]),
            forall|j: int| best < j < k ==> !candidate_le(candidates@[best as int], #[trigger] candidates@[j]),
        decreases candidates.len() - k,
    {
        if candidate_le_exec(&candidates[best], &candidates[k]) {
            best = k;
        }
        k += 1;
    }
    Some(best)
}

/// Why a parsed manifest cannot be used: a version this library does not
/// know.
pub fn manifest_version_problem(version: u32, file_display: &str) -> (r: Option<String>)
    ensures
        version == DOWNLOAD_MANIFEST_VERSION ==> r is None,
        version != DOWNLOAD_MANIFEST_VERSION ==> (r matches Some(m) && m@ == "Unsupported download manifest version "@
            + decimal(version as nat) + " in "@ + file_display@),
{
    if version == DOWNLOAD_MANIFEST_VERSION {
        None
    } else {
        let t = concat_chars(
            &concat_chars(
                &concat_chars(&chars_of("Unsupported download manifest version "), &decimal_chars(version as u64)),
                &chars_of(" in "),
            ),
            &chars_of(file_display),
        );
        Some(string_of(&t))
    }
}

// ---------------------------------------------------------------------------
// Conflicting claims on one destination
// ---------------------------------------------------------------------------

/// A job claims its destination while it is unfinished or resumable.
pub open spec fn job_claims(p: ProgressModel) -> bool {
    !p.done || p.resumable
}

pub open spec fn is_failed(p: ProgressModel) -> bool {
    p.done && p.status == "Failed"@
}

pub open spec fn ids_distinct(js: Seq<RestoredJob>) -> bool {
    forall|i: int, j: int| 0 <= i < j < js.len() ==> (#[trigger] js[i]).progress@.id != (#[trigger] js[j]).progress@.id
}

/// Job `k` claims destination `key`.
pub open spec fn claimer(js: Seq<RestoredJob>, k: int, key: Seq<char>) -> bool {
    0 <= k < js.len() && js[k].dest_key@ == key && job_claims(js[k].progress@)
}

/// No job for destination `key` has a cancellation cleanup pending.
pub open spec fn no_cleanup_for(js: Seq<RestoredJob>, key: Seq<char>) -> bool {
    forall|k: int| 0 <= k < js.len() && (#[trigger] js[k]).dest_key@ == key ==> js[k].progress@.status != cleanup_pending()
}

/// What restoring keeps true, job by job, for jobs with distinct ids.
pub open spec fn restore_inv(js: Seq<RestoredJob>, st: RestoreState) -> bool {
    &&& st.jobs.len() == js.len()
    &&& forall|k: int| 0 <= k < js.len() ==> (#[trigger] st.jobs[k]).id == js[k].progress@.id
    &&& forall|k: int| 0 <= k < js.len() ==> #[trigger] st.jobs[k] == js[k].progress@ || is_failed(st.jobs[k])
    &&& forall|key: Seq<char>| #[trigger] owner_of(st.owners, key) is None ==> forall|k: int| !claimer(js, k, key)
    &&& forall|key: Seq<char>| #[trigger] owner_of(st.owners, key) is Some ==> exists|k: int|
        claimer(js, k, key) && js[k].progress@.id == owner_of(st.owners, key)->0
    &&& forall|key: Seq<char>, a: int, b: int|
        #![trigger claimer(js, a, key), claimer(js, b, key)]
        claimer(js, a, key) && claimer(js, b, key) && a != b && no_cleanup_for(js, key) ==> is_failed(st.jobs[a])
    &&& forall|k: int|
        0 <= k < js.len() && (forall|j: int| j != k ==> !claimer(js, j, js[k].dest_key@)) ==> #[trigger] st.jobs[k]
            == js[k].progress@
}

proof fn lemma_owner_of_push(s: Seq<(Seq<char>, Seq<char>)>, x: (Seq<char>, Seq<char>), key: Seq<char>)
    ensures
        owner_of(s.push(x), key) == match owner_of(s, key) {
            Some(v) => Some(v),
            None => if x.0 == key { Some(x.1) } else { None },
        },
    decreases s.len(),
{
    let t = s.push(x);
    if s.len() > 0 {
        assert(t[0] == s[0]);
        assert(t.drop_first() =~= s.drop_first().push(x));
        lemma_owner_of_push(s.drop_first(), x, key);
    } else {
        assert(t[0] == x);
        assert(t.drop_first() =~= Seq::<(Seq<char>, Seq<char>)>::empty());
        assert(owner_of(t.drop_first(), key) is None);
    }
}

proof fn lemma_index_of_id_absent(jobs: Seq<ProgressModel>, id: Seq<char>)
    requires
        forall|j: int| 0 <= j < jobs.len() ==> (#[trigger] jobs[j]).id != id,
    ensures
        index_of_id(jobs, id) is None,
    decreases jobs.len(),
{
    if jobs.len() > 0 {
        lemma_index_of_id_absent(jobs.drop_last(), id);
    }
}

proof fn lemma_index_of_id_found(jobs: Seq<ProgressModel>, id: Seq<char>, k: int)
    requires
        0 <= k < jobs.len(),
        jobs[k].id == id,
        forall|j: int| 0 <= j < jobs.len() && j != k ==> (#[trigger] jobs[j]).id != id,
    ensures
        index_of_id(jobs, id) == Some(k),
    decreases jobs.len(),
{
    let d = jobs.drop_last();
    if k == jobs.len() - 1 {
        lemma_index_of_id_absent(d, id);
    } else {
        lemma_index_of_id_found(d, id, k);
    }
}

pub open spec fn conflict_msg(display: Seq<char>) -> Seq<char> {
    "Multiple persisted sources target "@ + display + "; reselect the intended Hub file."@
}

/// Where the owner of the new job's destination stands, when the new job
/// claims an owned destination.
pub open spec fn step_ix(st: RestoreState, p: ProgressModel, key: Seq<char>) -> Option<int> {
    if job_claims(p) && owner_of(st.owners, key) is Some {
        index_of_id(st.jobs, owner_of(st.owners, key)->0)
    } else {
        None
    }
}

pub open spec fn step_jobs1(st: RestoreState, p: ProgressModel, key: Seq<char>, msg: Seq<char>) -> Seq<ProgressModel> {
    match step_ix(st, p, key) {
        Some(i) => if st.jobs[i].status == cleanup_pending() {
            st.jobs
        } else {
            st.jobs.update(i, failed_with(st.jobs[i], msg))
        },
        None => st.jobs,
    }
}

pub open spec fn step_cur(st: RestoreState, p: ProgressModel, key: Seq<char>, msg: Seq<char>) -> ProgressModel {
    match step_ix(st, p, key) {
        Some(i) => if p.status != cleanup_pending() || st.jobs[i].status == cleanup_pending() {
            failed_with(p, msg)
        } else {
            p
        },
        None => p,
    }
}

pub open spec fn step_owners(st: RestoreState, p: ProgressModel, key: Seq<char>) -> Seq<(Seq<char>, Seq<char>)> {
    if job_claims(p) && owner_of(st.owners, key) is None {
        st.owners.push((key, p.id))
    } else {
        st.owners
    }
}

pub open spec fn step_of(js: Seq<RestoredJob>, st: RestoreState) -> RestoreState {
    restore_step(st, js.last().progress@, js.last().dest_key@, js.last().dest_display@)
}

/// The shape of one restore step for a job with a fresh id.
proof fn lemma_step_facts(js: Seq<RestoredJob>, st: RestoreState)
    requires
        js.len() > 0,
        ids_distinct(js),
        restore_inv(js.drop_last(), st),
    ensures
        ({
            let pre = js.drop_last();
            let n = pre.len() as int;
            let p = js.last().progress@;
            let key = js.last().dest_key@;
            let msg = conflict_msg(js.last().dest_display@);
            let ix = step_ix(st, p, key);
            let j1 = step_jobs1(st, p, key, msg);
            &&& step_of(js, st).jobs == j1.push(step_cur(st, p, key, msg))
            &&& step_of(js, st).owners == step_owners(st, p, key)
            &&& j1.len() == n
            &&& (ix matches Some(i) ==> 0 <= i < n && claimer(pre, i, key))
            &&& (job_claims(p) && owner_of(st.owners, key) is Some ==> ix is Some)
            &&& forall|k: int| 0 <= k < n ==> #[trigger] j1[k] == if ix == Some(k) && st.jobs[k].status != cleanup_pending() {
                failed_with(st.jobs[k], msg)
            } else {
                st.jobs[k]
            }
        }),
{
    let pre = js.drop_last();
    let n = pre.len() as int;
    let p = js.last().progress@;
    let key = js.last().dest_key@;
    let msg = conflict_msg(js.last().dest_display@);
    let ix = step_ix(st, p, key);
    let j1 = step_jobs1(st, p, key, msg);
    let owner = owner_of(st.owners, key);
    assert forall|j: int| 0 <= j < st.jobs.len() implies (#[trigger] st.jobs[j]).id != p.id by {
        assert(st.jobs[j].id == pre[j].progress@.id);
        assert(pre[j] == js[j]);
        assert(js[j].progress@.id != js[n].progress@.id);
    }
    if job_claims(p) && owner is Some {
        let k0 = choose|k: int| claimer(pre, k, key) && pre[k].progress@.id == owner->0;
        assert(claimer(pre, k0, key) && pre[k0].progress@.id == owner->0);
        assert forall|j: int| 0 <= j < st.jobs.len() && j != k0 implies (#[trigger] st.jobs[j]).id != owner->0 by {
            assert(st.jobs[j].id == pre[j].progress@.id);
            assert(pre[j] == js[j] && pre[k0] == js[k0]);
            if j < k0 {
                assert(js[j].progress@.id != js[k0].progress@.id);
            } else {
                assert(js[k0].progress@.id != js[j].progress@.id);
            }
        }
        lemma_index_of_id_found(st.jobs, owner->0, k0);
    }
    assert forall|j: int| 0 <= j < j1.len() implies (#[trigger] j1[j]).id != p.id by {
        assert(j1[j].id == st.jobs[j].id);
    }
    lemma_index_of_id_absent(j1, p.id);
}

proof fn lemma_step_records(js: Seq<RestoredJob>, st: RestoreState)
    requires
        js.len() > 0,
        ids_distinct(js),
        restore_inv(js.drop_last(), st),
    ensures
        step_of(js, st).jobs.len() == js.len(),
        forall|k: int| 0 <= k < js.len() ==> (#[trigger] step_of(js, st).jobs[k]).id == js[k].progress@.id,
        forall|k: int| 0 <= k < js.len() ==> #[trigger] step_of(js, st).jobs[k] == js[k].progress@ || is_failed(
            step_of(js, st).jobs[k],
        ),
{
    reveal_strlit("Failed");
    lemma_step_facts(js, st);
    let pre = js.drop_last();
    let n = pre.len() as int;
    let r = step_of(js, st);
    let p = js.last().progress@;
    let key = js.last().dest_key@;
    let msg = conflict_msg(js.last().dest_display@);
    let j1 = step_jobs1(st, p, key, msg);
    assert forall|k: int| 0 <= k < js.len() implies (#[trigger] r.jobs[k]).id == js[k].progress@.id by {
        if k < n {
            assert(r.jobs[k] == j1[k]);
            assert(pre[k] == js[k]);
        }
    }
    assert forall|k: int| 0 <= k < js.len() implies #[trigger] r.jobs[k] == js[k].progress@ || is_failed(r.jobs[k]) by {
        if k < n {
            assert(r.jobs[k] == j1[k]);
            assert(pre[k] == js[k]);
        }
    }
}

proof fn lemma_step_owners(js: Seq<RestoredJob>, st: RestoreState)
    requires
        js.len() > 0,
        ids_distinct(js),
        restore_inv(js.drop_last(), st),
    ensures
        forall|kk: Seq<char>| #[trigger] owner_of(step_of(js, st).owners, kk) is None ==> forall|k: int|
            !claimer(js, k, kk),
        forall|kk: Seq<char>| #[trigger] owner_of(step_of(js, st).owners, kk) is Some ==> exists|k: int|
            claimer(js, k, kk) && js[k].progress@.id == owner_of(step_of(js, st).owners, kk)->0,
{
    lemma_step_facts(js, st);
    let pre = js.drop_last();
    let n = pre.len() as int;
    let r = step_of(js, st);
    let p = js.last().progress@;
    let key = js.last().dest_key@;
    let owner = owner_of(st.owners, key);
    assert forall|k: int, kk: Seq<char>| 0 <= k < n implies claimer(pre, k, kk) == claimer(js, k, kk) by {
        assert(pre[k] == js[k]);
    }
    assert forall|kk: Seq<char>| #[trigger] owner_of(r.owners, kk) is None implies forall|k: int| !claimer(js, k, kk) by {
        if job_claims(p) && owner is None {
            lemma_owner_of_push(st.owners, (key, p.id), kk);
        }
        assert forall|k: int| !claimer(js, k, kk) by {
            if 0 <= k < n {
                assert(claimer(pre, k, kk) == claimer(js, k, kk));
            }
        }
    }
    assert forall|kk: Seq<char>| #[trigger] owner_of(r.owners, kk) is Some implies exists|k: int|
        claimer(js, k, kk) && js[k].progress@.id == owner_of(r.owners, kk)->0 by {
        if job_claims(p) && owner is None {
            lemma_owner_of_push(st.owners, (key, p.id), kk);
            if owner_of(st.owners, kk) is None {
                assert(claimer(js, n, kk) && js[n].progress@.id == owner_of(r.owners, kk)->0);
            } else {
                let k = choose|k: int| claimer(pre, k, kk) && pre[k].progress@.id == owner_of(st.owners, kk)->0;
                assert(claimer(js, k, kk) && js[k].progress@.id == owner_of(r.owners, kk)->0);
            }
        } else {
            let k = choose|k: int| claimer(pre, k, kk) && pre[k].progress@.id == owner_of(st.owners, kk)->0;
            assert(claimer(js, k, kk) && js[k].progress@.id == owner_of(r.owners, kk)->0);
        }
    }
}

proof fn lemma_failed_is_not_cleanup()
    ensures
        "Failed"@ != cleanup_pending(),
{
    reveal_strlit("Failed");
    reveal_strlit("Cleanup pending");
    assert("Failed"@.len() != "Cleanup pending"@.len());
}

/// A conflicting pair after a step, when one of the two is the new job.
proof fn lemma_step_conflict_new(js: Seq<RestoredJob>, st: RestoreState, a: int, other: int)
    requires
        js.len() > 0,
        ids_distinct(js),
        restore_inv(js.drop_last(), st),
        a == js.len() - 1 || other == js.len() - 1,
        a != other,
        claimer(js, a, js.last().dest_key@),
        claimer(js, other, js.last().dest_key@),
        no_cleanup_for(js, js.last().dest_key@),
    ensures
        is_failed(step_of(js, st).jobs[a]),
{
    lemma_failed_is_not_cleanup();
    lemma_step_facts(js, st);
    let pre = js.drop_last();
    let n = pre.len() as int;
    let p = js.last().progress@;
    let key = js.last().dest_key@;
    let msg = conflict_msg(js.last().dest_display@);
    let ix = step_ix(st, p, key);
    let j1 = step_jobs1(st, p, key, msg);
    let earlier = if a == n { other } else { a };
    assert(pre[earlier] == js[earlier]);
    assert(claimer(pre, earlier, key));
    assert(owner_of(st.owners, key) is Some);
    let i = ix->0;
    assert(claimer(pre, i, key));
    assert(pre[i] == js[i]);
    assert(js[i].progress@.status != cleanup_pending());
    assert(st.jobs[i].status != cleanup_pending());
    if a == n {
        assert(js[n].progress@.status != cleanup_pending());
        assert(step_of(js, st).jobs[a] == step_cur(st, p, key, msg));
    } else {
        assert(step_of(js, st).jobs[a] == j1[a]);
        if a != i {
            assert(claimer(pre, a, key) && claimer(pre, i, key));
            assert(no_cleanup_for(pre, key)) by {
                assert forall|k: int| 0 <= k < pre.len() && (#[trigger] pre[k]).dest_key@ == key implies pre[k].progress@.status
                    != cleanup_pending() by {
                    assert(pre[k] == js[k]);
                }
            }
            assert(is_failed(st.jobs[a]));
        }
    }
}

/// A conflicting pair of earlier jobs stays failed after a step.
proof fn lemma_step_conflict_old(js: Seq<RestoredJob>, st: RestoreState, kk: Seq<char>, a: int, b: int)
    requires
        js.len() > 0,
        ids_distinct(js),
        restore_inv(js.drop_last(), st),
        a < js.len() - 1,
        b < js.len() - 1,
        claimer(js, a, kk),
        claimer(js, b, kk),
        a != b,
        no_cleanup_for(js, kk),
    ensures
        is_failed(step_of(js, st).jobs[a]),
{
    lemma_step_facts(js, st);
    let pre = js.drop_last();
    let p = js.last().progress@;
    let key = js.last().dest_key@;
    let msg = conflict_msg(js.last().dest_display@);
    let j1 = step_jobs1(st, p, key, msg);
    assert(pre[a] == js[a] && pre[b] == js[b]);
    assert(claimer(pre, a, kk) && claimer(pre, b, kk));
    assert(no_cleanup_for(pre, kk)) by {
        assert forall|k: int| 0 <= k < pre.len() && (#[trigger] pre[k]).dest_key@ == kk implies pre[k].progress@.status
            != cleanup_pending() by {
            assert(pre[k] == js[k]);
        }
    }
    assert(is_failed(st.jobs[a]));
    assert(step_of(js, st).jobs[a] == j1[a]);
}

proof fn lemma_step_conflicts(js: Seq<RestoredJob>, st: RestoreState)
    requires
        js.len() > 0,
        ids_distinct(js),
        restore_inv(js.drop_last(), st),
    ensures
        forall|kk: Seq<char>, a: int, b: int|
            #![trigger claimer(js, a, kk), claimer(js, b, kk)]
            claimer(js, a, kk) && claimer(js, b, kk) && a != b && no_cleanup_for(js, kk) ==> is_failed(
                step_of(js, st).jobs[a],
            ),
{
    assert forall|kk: Seq<char>, a: int, b: int|
        #![trigger claimer(js, a, kk), claimer(js, b, kk)]
        claimer(js, a, kk) && claimer(js, b, kk) && a != b && no_cleanup_for(js, kk) implies is_failed(
            step_of(js, st).jobs[a],
        ) by {
        let n = js.len() - 1;
        if a == n || b == n {
            lemma_step_conflict_new(js, st, a, b);
        } else {
            lemma_step_conflict_old(js, st, kk, a, b);
        }
    }
}

proof fn lemma_step_unshared(js: Seq<RestoredJob>, st: RestoreState)
    requires
        js.len() > 0,
        ids_distinct(js),
        restore_inv(js.drop_last(), st),
    ensures
        forall|k: int|
            0 <= k < js.len() && (forall|j: int| j != k ==> !claimer(js, j, js[k].dest_key@)) ==> #[trigger] step_of(
                js,
                st,
            ).jobs[k] == js[k].progress@,
{
    lemma_step_facts(js, st);
    let pre = js.drop_last();
    let n = pre.len() as int;
    let r = step_of(js, st);
    let p = js.last().progress@;
    let key = js.last().dest_key@;
    let msg = conflict_msg(js.last().dest_display@);
    let ix = step_ix(st, p, key);
    let j1 = step_jobs1(st, p, key, msg);
    assert forall|k: int, kk: Seq<char>| 0 <= k < n implies claimer(pre, k, kk) == claimer(js, k, kk) by {
        assert(pre[k] == js[k]);
    }
    assert forall|k: int|
        0 <= k < js.len() && (forall|j: int| j != k ==> !claimer(js, j, js[k].dest_key@)) implies #[trigger] r.jobs[k]
            == js[k].progress@ by {
        if k == n {
            if ix is Some {
                assert(claimer(pre, ix->0, key));
                assert(claimer(js, ix->0, key));
                assert(false);
            }
            assert(r.jobs[k] == step_cur(st, p, key, msg));
        } else {
            assert(pre[k] == js[k]);
            assert forall|j: int| j != k implies !claimer(pre, j, pre[k].dest_key@) by {
                if 0 <= j < n {
                    assert(claimer(pre, j, pre[k].dest_key@) == claimer(js, j, js[k].dest_key@));
                }
            }
            assert(st.jobs[k] == pre[k].progress@);
            assert(r.jobs[k] == j1[k]);
            if ix == Some(k) {
                assert(claimer(js, n, js[k].dest_key@));
                assert(false);
            }
        }
    }
}

proof fn lemma_restore_step_inv(js: Seq<RestoredJob>, st: RestoreState)
    requires
        js.len() > 0,
        ids_distinct(js),
        restore_inv(js.drop_last(), st),
    ensures
        restore_inv(js, step_of(js, st)),
{
    lemma_step_records(js, st);
    lemma_step_owners(js, st);
    lemma_step_conflicts(js, st);
    lemma_step_unshared(js, st);
}

proof fn lemma_restore_inv(js: Seq<RestoredJob>)
    requires
        ids_distinct(js),
    ensures
        restore_inv(js, restore_all(js)),
    decreases js.len(),
{
    if js.len() == 0 {
        let st = restore_all(js);
        assert(st.owners.len() == 0);
        assert forall|key: Seq<char>| #[trigger] owner_of(st.owners, key) is None by {}
    } else {
        let pre = js.drop_last();
        assert(ids_distinct(pre)) by {
            assert forall|i: int, j: int| 0 <= i < j < pre.len() implies (#[trigger] pre[i]).progress@.id != (#[trigger] pre[j]).progress@.id by {
                assert(pre[i] == js[i] && pre[j] == js[j]);
            }
        }
        lemma_restore_inv(pre);
        lemma_restore_step_inv(js, restore_all(pre));
        assert(restore_all(js) == step_of(js, restore_all(pre)));
    }
}

/// When two or more restored jobs (with distinct ids) still claim the same
/// destination, and none of the jobs for it has a cancellation cleanup
/// pending, every one of them ends failed; the list keeps one entry per
/// job, in manifest order.
pub proof fn lemma_conflicting_claims_fail(js: Seq<RestoredJob>, a: int, b: int)
    requires
        ids_distinct(js),
        0 <= a < js.len(),
        0 <= b < js.len(),
        a != b,
        js[a].dest_key@ == js[b].dest_key@,
        job_claims(js[a].progress@),
        job_claims(js[b].progress@),
        no_cleanup_for(js, js[a].dest_key@),
    ensures
        restore_all(js).jobs.len() == js.len(),
        restore_all(js).jobs[a].id == js[a].progress@.id,
        is_failed(restore_all(js).jobs[a]),
        is_failed(restore_all(js).jobs[b]),
{
    lemma_restore_inv(js);
    let key = js[a].dest_key@;
    assert(claimer(js, a, key) && claimer(js, b, key));
}

/// A restored job whose destination no other job claims comes through
/// exactly as reconciled (jobs with distinct ids).
pub proof fn lemma_unshared_job_kept(js: Seq<RestoredJob>, k: int)
    requires
        ids_distinct(js),
        0 <= k < js.len(),
        forall|j: int| 0 <= j < js.len() && j != k ==> !(js[j].dest_key@ == js[k].dest_key@ && job_claims(js[j].progress@)),
    ensures
        restore_all(js).jobs.len() == js.len(),
        restore_all(js).jobs[k] == js[k].progress@,
{
    lemma_restore_inv(js);
    assert forall|j: int| j != k implies !claimer(js, j, js[k].dest_key@) by {}
}

/// Settling restored jobs (with distinct ids) changes a job in one way
/// only, by failing it: each comes through as reconciled or done and
/// `Failed`, under its own id and at its own position. A cancellation is
/// never turned back into a resumable download.
pub proof fn lemma_restore_only_fails(js: Seq<RestoredJob>, k: int)
    requires
        ids_distinct(js),
        0 <= k < js.len(),
    ensures
        restore_all(js).jobs.len() == js.len(),
        restore_all(js).jobs[k].id == js[k].progress@.id,
        restore_all(js).jobs[k] == js[k].progress@ || is_failed(restore_all(js).jobs[k]),
{
    lemma_restore_inv(js);
}

} // verus!
